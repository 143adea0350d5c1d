//! The error taxonomy of the keystore. Each failure of the store or of the
//! crypto operations maps to exactly one variant, so callers can branch on
//! kind (for instance "already imported" versus a generic failure).

use vstd::prelude::*;

verus! {

/// Every way a keystore or crypto operation can fail.
#[derive(Clone, Copy, Debug, PartialEq, Eq, Structural)]
pub enum Error {
    /// A lookup missed: no entry under the requested name or address.
    NotFound,
    /// A duplicate registration was refused.
    KeyExists,
    /// The signature scheme has no backing implementation.
    UnsupportedScheme,
    /// The private key bytes are malformed for their scheme.
    InvalidKey,
    /// An encrypted store image did not decrypt (bad passphrase or tampering).
    DecryptionFailed,
    /// The plaintext of a store image is structurally invalid.
    CorruptStore,
    /// A persistent backend write could not be completed.
    StorageIOError,
}

impl Error {
    /// A short stable description, for display at the interface boundary.
    pub fn describe(&self) -> (r: &'static str)
        ensures
            r@.len() > 0,
    {
        proof {
            reveal_strlit("key not found");
            reveal_strlit("key already exists");
            reveal_strlit("unsupported signature scheme");
            reveal_strlit("invalid key bytes");
            reveal_strlit("decryption failed");
            reveal_strlit("corrupt keystore image");
            reveal_strlit("storage i/o error");
        }
        match self {
            Error::NotFound => "key not found",
            Error::KeyExists => "key already exists",
            Error::UnsupportedScheme => "unsupported signature scheme",
            Error::InvalidKey => "invalid key bytes",
            Error::DecryptionFailed => "decryption failed",
            Error::CorruptStore => "corrupt keystore image",
            Error::StorageIOError => "storage i/o error",
        }
    }
}

} // verus!
