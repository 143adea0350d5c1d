//! Crypto operations: key generation, signing, verification and the
//! primitives behind the encrypted store image.
//!
//! The arithmetic itself is done by outside crates; each call stands behind
//! a trusted wrapper whose contract names its result. Everything layered on
//! top — scheme dispatch, address comparison, the sign/verify relation — is
//! verified against those names.

use vstd::prelude::*;

use aes_gcm::KeyInit;
use aes_gcm::aead::Aead;
use bls_signatures::Serialize as BlsSerialization;
use rand::RngCore;

use crate::errors::Error;
use crate::model::{
    Address, AddressView, Key, KeyInfo, KeyInfoView, Signature, SignatureScheme, SignatureView,
    all_zero, bytes_eq, is_all_zero,
};

verus! {

/// Whether `SecretKey::parse` accepts these 32 bytes as a secp256k1 key.
pub uninterp spec fn secp_key_ok(sk: Seq<u8>) -> bool;

/// The serialized public key `PublicKey::from_secret_key` derives from `sk`.
pub uninterp spec fn secp_public_key_of(sk: Seq<u8>) -> Seq<u8>;

/// The serialized recoverable signature `libsecp256k1::sign` produces over a
/// 32-byte digest (its nonce is derived deterministically from key and digest).
pub uninterp spec fn secp_signature_of(sk: Seq<u8>, digest: Seq<u8>) -> Seq<u8>;

/// The public key `libsecp256k1::recover` reconstructs from a digest and a
/// serialized recoverable signature; `None` when the bytes do not parse or
/// recovery fails.
pub uninterp spec fn secp_recovered_key(digest: Seq<u8>, sig: Seq<u8>) -> Option<Seq<u8>>;

/// The 32-byte BLAKE2b digest `blake2b_simd` computes.
pub uninterp spec fn blake2b_256_of(data: Seq<u8>) -> Seq<u8>;

/// Whether `PrivateKey::from_bytes` accepts these 32 bytes as a BLS key.
pub uninterp spec fn bls_key_ok(sk: Seq<u8>) -> bool;

/// The serialized public key `PrivateKey::public_key` derives from `sk`.
pub uninterp spec fn bls_public_key_of(sk: Seq<u8>) -> Seq<u8>;

/// The serialized signature `PrivateKey::sign` produces (BLS signing is
/// deterministic: the hashed message scaled by the key).
pub uninterp spec fn bls_signature_of(sk: Seq<u8>, msg: Seq<u8>) -> Seq<u8>;

/// Whether `PublicKey::verify` accepts the serialized signature over the
/// message under the serialized public key; false when either fails to parse.
pub uninterp spec fn bls_accepts(pk: Seq<u8>, sig: Seq<u8>, msg: Seq<u8>) -> bool;

/// The 32-byte key `pbkdf2_hmac::<Sha256>` derives.
pub uninterp spec fn kdf_key_of(passphrase: Seq<u8>, salt: Seq<u8>, rounds: u32) -> Seq<u8>;

/// What `Aes256Gcm::decrypt` recovers from a ciphertext under a key and
/// nonce; `None` when authentication fails.
pub uninterp spec fn aead_opened(key: Seq<u8>, nonce: Seq<u8>, ct: Seq<u8>) -> Option<Seq<u8>>;

/// Relies on `rand`: fills a buffer from a cryptographically secure source.
/// Nothing is promised of the contents.
#[verifier::external_body]
pub fn random_bytes(n: usize) -> (r: Vec<u8>)
    ensures
        r@.len() == n,
{
    let mut out = vec![0u8; n];
    rand::thread_rng().fill_bytes(&mut out);
    out
}

/// Relies on `libsecp256k1::SecretKey::random`: a freshly generated key,
/// valid by construction, serialized to 32 bytes.
#[verifier::external_body]
fn secp_secret_key() -> (r: Vec<u8>)
    ensures
        r@.len() == 32,
        secp_key_ok(r@),
{
    let key = libsecp256k1::SecretKey::random(&mut rand::rngs::OsRng);
    key.serialize().to_vec()
}

/// Relies on `libsecp256k1::SecretKey::parse` (accepts exactly the 32-byte
/// scalars in range) and `PublicKey::from_secret_key`, serialized
/// uncompressed to 65 bytes.
#[verifier::external_body]
fn secp_public_key(sk: &[u8]) -> (r: Option<Vec<u8>>)
    ensures
        r is Some <==> (sk@.len() == 32 && secp_key_ok(sk@)),
        r matches Some(pk) ==> pk@ == secp_public_key_of(sk@) && pk@.len() == 65,
{
    let arr: [u8; 32] = sk.try_into().ok()?;
    let key = libsecp256k1::SecretKey::parse(&arr).ok()?;
    Some(libsecp256k1::PublicKey::from_secret_key(&key).serialize().to_vec())
}

/// Relies on `libsecp256k1::sign` over a 32-byte digest: a recoverable
/// signature serialized as 64 bytes plus the recovery byte, from which
/// `recover` reconstructs the signing key's public key.
#[verifier::external_body]
fn secp_sign_digest(sk: &[u8], digest: &[u8]) -> (r: Option<Vec<u8>>)
    requires
        digest@.len() == 32,
    ensures
        r is Some <==> (sk@.len() == 32 && secp_key_ok(sk@)),
        r matches Some(sig) ==> {
            &&& sig@ == secp_signature_of(sk@, digest@)
            &&& sig@.len() == 65
            &&& secp_recovered_key(digest@, sig@) == Some(secp_public_key_of(sk@))
        },
{
    let arr: [u8; 32] = sk.try_into().ok()?;
    let key = libsecp256k1::SecretKey::parse(&arr).ok()?;
    let msg = libsecp256k1::Message::parse(&digest.try_into().unwrap());
    let (sig, recovery_id) = libsecp256k1::sign(&msg, &key);
    let mut out = sig.serialize().to_vec();
    out.push(recovery_id.serialize());
    Some(out)
}

/// Relies on `libsecp256k1::recover` over a 32-byte digest and a serialized
/// recoverable signature; `None` when the signature bytes do not parse or
/// no key can be recovered.
#[verifier::external_body]
fn secp_recover(digest: &[u8], sig: &[u8]) -> (r: Option<Vec<u8>>)
    requires
        digest@.len() == 32,
    ensures
        match r {
            Some(pk) => secp_recovered_key(digest@, sig@) == Some(pk@) && pk@.len() == 65,
            None => secp_recovered_key(digest@, sig@) is None,
        },
{
    if sig.len() != 65 {
        return None;
    }
    let parsed = libsecp256k1::Signature::parse_standard(&sig[..64].try_into().unwrap()).ok()?;
    let recovery_id = libsecp256k1::RecoveryId::parse(sig[64]).ok()?;
    let msg = libsecp256k1::Message::parse(&digest.try_into().unwrap());
    let pk = libsecp256k1::recover(&msg, &parsed, &recovery_id).ok()?;
    Some(pk.serialize().to_vec())
}

/// Relies on `blake2b_simd`: the 32-byte BLAKE2b digest of the input.
#[verifier::external_body]
fn blake2b_256(data: &[u8]) -> (r: Vec<u8>)
    ensures
        r@ == blake2b_256_of(data@),
        r@.len() == 32,
{
    blake2b_simd::Params::new().hash_length(32).hash(data).as_bytes().to_vec()
}

/// Relies on `bls_signatures::PrivateKey::generate`: a freshly generated
/// key, valid by construction, serialized to 32 bytes.
#[verifier::external_body]
fn bls_secret_key() -> (r: Vec<u8>)
    ensures
        r@.len() == 32,
        bls_key_ok(r@),
{
    bls_signatures::PrivateKey::generate(&mut rand::rngs::OsRng).as_bytes()
}

/// Relies on `bls_signatures::PrivateKey::from_bytes` (accepts exactly the
/// 32-byte scalars in range) and `public_key`, serialized compressed to 48
/// bytes.
#[verifier::external_body]
fn bls_public_key(sk: &[u8]) -> (r: Option<Vec<u8>>)
    ensures
        r is Some <==> (sk@.len() == 32 && bls_key_ok(sk@)),
        r matches Some(pk) ==> pk@ == bls_public_key_of(sk@) && pk@.len() == 48,
{
    let key = bls_signatures::PrivateKey::from_bytes(sk).ok()?;
    Some(key.public_key().as_bytes())
}

/// Relies on `bls_signatures::PrivateKey::sign`: a 96-byte serialized
/// signature that the signer's own public key accepts over the message.
/// The zero scalar is excluded by `requires`: `PrivateKey::from_bytes`
/// still accepts it, but verification rejects the identity public key, so
/// a zero key's signature would never verify.
#[verifier::external_body]
fn bls_sign_bytes(sk: &[u8], msg: &[u8]) -> (r: Option<Vec<u8>>)
    requires
        !all_zero(sk@),
    ensures
        r is Some <==> (sk@.len() == 32 && bls_key_ok(sk@)),
        r matches Some(sig) ==> {
            &&& sig@ == bls_signature_of(sk@, msg@)
            &&& sig@.len() == 96
            &&& bls_accepts(bls_public_key_of(sk@), sig@, msg@)
        },
{
    let key = bls_signatures::PrivateKey::from_bytes(sk).ok()?;
    Some(key.sign(msg).as_bytes())
}

/// Relies on `bls_signatures::PublicKey::verify` after deserializing the
/// public key and the signature; refusal to parse counts as rejection.
#[verifier::external_body]
fn bls_verify_bytes(pk: &[u8], sig: &[u8], msg: &[u8]) -> (r: bool)
    ensures
        r == bls_accepts(pk@, sig@, msg@),
{
    let key = match bls_signatures::PublicKey::from_bytes(pk) {
        Ok(k) => k,
        Err(_) => return false,
    };
    let parsed = match bls_signatures::Signature::from_bytes(sig) {
        Ok(s) => s,
        Err(_) => return false,
    };
    key.verify(parsed, msg)
}

/// Relies on `pbkdf2::pbkdf2_hmac` with SHA-256: a 32-byte key derived
/// from passphrase and salt, a pure function of its inputs.
#[verifier::external_body]
pub(crate) fn derive_key(passphrase: &[u8], salt: &[u8], rounds: u32) -> (r: Vec<u8>)
    requires
        rounds >= 1,
    ensures
        r@ == kdf_key_of(passphrase@, salt@, rounds),
        r@.len() == 32,
{
    let mut out = [0u8; 32];
    pbkdf2::pbkdf2_hmac::<sha2::Sha256>(passphrase, salt, rounds, &mut out);
    out.to_vec()
}

/// Relies on `aes_gcm::Aes256Gcm` encryption: authenticated ciphertext
/// (plaintext length plus a 16-byte tag) that decrypts back to the
/// plaintext under the same key and nonce. Fails only on plaintexts beyond
/// the cipher's length bound.
#[verifier::external_body]
pub(crate) fn aead_seal_bytes(key: &[u8], nonce: &[u8], plain: &[u8]) -> (r: Option<Vec<u8>>)
    requires
        key@.len() == 32,
        nonce@.len() == 12,
    ensures
        plain@.len() <= 0xF_FFFF_FFE0 ==> r is Some,
        r matches Some(ct) ==> {
            &&& aead_opened(key@, nonce@, ct@) == Some(plain@)
            &&& ct@.len() == plain@.len() + 16
        },
{
    let key_arr = aes_gcm::Key::<aes_gcm::Aes256Gcm>::try_from(key).ok()?;
    let cipher = aes_gcm::Aes256Gcm::new(&key_arr);
    let nonce_arr = aes_gcm::Nonce::<aes_gcm::aead::consts::U12>::try_from(nonce).ok()?;
    cipher.encrypt(&nonce_arr, plain).ok()
}

/// Relies on `aes_gcm::Aes256Gcm` decryption: recovers the plaintext or
/// fails authentication.
#[verifier::external_body]
pub(crate) fn aead_open_bytes(key: &[u8], nonce: &[u8], ct: &[u8]) -> (r: Option<Vec<u8>>)
    requires
        key@.len() == 32,
        nonce@.len() == 12,
    ensures
        match r {
            Some(p) => aead_opened(key@, nonce@, ct@) == Some(p@),
            None => aead_opened(key@, nonce@, ct@) is None,
        },
{
    let key_arr = aes_gcm::Key::<aes_gcm::Aes256Gcm>::try_from(key).ok()?;
    let cipher = aes_gcm::Aes256Gcm::new(&key_arr);
    let nonce_arr = aes_gcm::Nonce::<aes_gcm::aead::consts::U12>::try_from(nonce).ok()?;
    cipher.decrypt(&nonce_arr, ct).ok()
}

/// Whether a key record holds well-formed private key bytes for its scheme.
/// A BLS key must additionally not be the zero scalar: the BLS crate still
/// parses it, but verification rejects the identity public key it derives,
/// so the zero scalar could never sign anything verifiable.
pub open spec fn key_ok(ki: KeyInfoView) -> bool {
    match ki.scheme {
        SignatureScheme::Secp256k1 => ki.private_key.len() == 32 && secp_key_ok(ki.private_key),
        SignatureScheme::Bls => ki.private_key.len() == 32 && bls_key_ok(ki.private_key)
            && !all_zero(ki.private_key),
    }
}

/// The serialized public key a key record derives.
pub open spec fn public_key_of(ki: KeyInfoView) -> Seq<u8> {
    match ki.scheme {
        SignatureScheme::Secp256k1 => secp_public_key_of(ki.private_key),
        SignatureScheme::Bls => bls_public_key_of(ki.private_key),
    }
}

/// The address a key record derives: its scheme and its public key bytes.
pub open spec fn address_of(ki: KeyInfoView) -> AddressView {
    AddressView { scheme: ki.scheme, payload: public_key_of(ki) }
}

/// The signature bytes signing a message with a key record produces.
/// Secp256k1 signs the BLAKE2b digest of the message; BLS signs the message
/// directly.
pub open spec fn signature_bytes_of(ki: KeyInfoView, msg: Seq<u8>) -> Seq<u8> {
    match ki.scheme {
        SignatureScheme::Secp256k1 => secp_signature_of(
            ki.private_key,
            blake2b_256_of(msg),
        ),
        SignatureScheme::Bls => bls_signature_of(ki.private_key, msg),
    }
}

/// Whether verification accepts a signature over a message for an address.
/// For secp256k1 the signer's public key is recovered from the signature and
/// must equal the address payload; for BLS the address payload is the public
/// key the signature is checked under.
pub open spec fn accepts(sig: SignatureView, msg: Seq<u8>, addr: AddressView) -> bool {
    &&& sig.scheme == addr.scheme
    &&& match addr.scheme {
        SignatureScheme::Secp256k1 => match secp_recovered_key(blake2b_256_of(msg), sig.bytes) {
            Some(pk) => pk == addr.payload,
            None => false,
        },
        SignatureScheme::Bls => bls_accepts(addr.payload, sig.bytes, msg),
    }
}

/// Draw BLS key bytes until they are not the zero scalar, a draw of
/// negligible probability that the key-generation routine of the BLS crate
/// does not itself exclude; gives up after a fixed number of draws.
fn fresh_bls_secret() -> (r: Option<Vec<u8>>)
    ensures
        r matches Some(sk) ==> sk@.len() == 32 && bls_key_ok(sk@) && !all_zero(sk@),
{
    let mut tries: usize = 0;
    while tries < 16
        invariant
            tries <= 16,
        decreases 16 - tries,
    {
        let sk = bls_secret_key();
        if !is_all_zero(&sk) {
            return Some(sk);
        }
        tries += 1;
    }
    None
}

/// Generate a fresh key pair for a scheme and derive its address.
/// Secp256k1 generation always succeeds; BLS generation fails `InvalidKey`
/// only in the negligible case that every drawn scalar was zero.
pub fn generate_key(scheme: SignatureScheme) -> (r: Result<Key, Error>)
    ensures
        scheme == SignatureScheme::Secp256k1 ==> r is Ok,
        r matches Err(e) ==> e == Error::InvalidKey && scheme == SignatureScheme::Bls,
        r matches Ok(k) ==> {
            &&& k@.key_info.scheme == scheme
            &&& key_ok(k@.key_info)
            &&& k@.address == address_of(k@.key_info)
        },
{
    let secret = match scheme {
        SignatureScheme::Secp256k1 => secp_secret_key(),
        SignatureScheme::Bls => match fresh_bls_secret() {
            Some(sk) => sk,
            None => {
                return Err(Error::InvalidKey);
            },
        },
    };
    let key_info = KeyInfo::new(scheme, secret);
    match key_from_info(key_info) {
        Ok(k) => Ok(k),
        Err(e) => {
            proof {
                assert(false);
            }
            Err(e)
        },
    }
}

/// Pair a key record with its derived address; fails `InvalidKey` exactly
/// when the private key bytes are malformed for the scheme.
pub fn key_from_info(key_info: KeyInfo) -> (r: Result<Key, Error>)
    ensures
        r is Ok <==> key_ok(key_info@),
        r matches Ok(k) ==> k@.key_info == key_info@ && k@.address == address_of(key_info@),
        r matches Err(e) ==> e == Error::InvalidKey,
{
    let pk = match key_info.scheme {
        SignatureScheme::Secp256k1 => secp_public_key(key_info.private_key.as_slice()),
        SignatureScheme::Bls => if is_all_zero(&key_info.private_key) {
            None
        } else {
            bls_public_key(key_info.private_key.as_slice())
        },
    };
    match pk {
        Some(payload) => {
            let address = Address::new(key_info.scheme, payload);
            Ok(Key { address, key_info })
        },
        None => Err(Error::InvalidKey),
    }
}

/// Sign a message with private key bytes under a scheme; fails `InvalidKey`
/// exactly when the bytes are malformed. A produced signature verifies
/// against the signer's own derived address.
pub fn sign(scheme: SignatureScheme, private_key: &Vec<u8>, msg: &Vec<u8>) -> (r: Result<
    Signature,
    Error,
>)
    ensures
        r is Ok <==> key_ok(KeyInfoView { scheme, private_key: private_key@ }),
        r matches Err(e) ==> e == Error::InvalidKey,
        r matches Ok(sig) ==> {
            &&& sig@.scheme == scheme
            &&& sig@.bytes == signature_bytes_of(
                KeyInfoView { scheme, private_key: private_key@ },
                msg@,
            )
            &&& accepts(
                sig@,
                msg@,
                address_of(KeyInfoView { scheme, private_key: private_key@ }),
            )
        },
{
    let raw = match scheme {
        SignatureScheme::Secp256k1 => {
            let digest = blake2b_256(msg.as_slice());
            secp_sign_digest(private_key.as_slice(), digest.as_slice())
        },
        SignatureScheme::Bls => if is_all_zero(private_key) {
            None
        } else {
            bls_sign_bytes(private_key.as_slice(), msg.as_slice())
        },
    };
    match raw {
        Some(bytes) => Ok(Signature { scheme, bytes }),
        None => Err(Error::InvalidKey),
    }
}

/// Verify a signature over a message for an address. Pure and side-effect
/// free: a mismatch is the normal `false` answer, never an error, and no
/// private key is involved.
pub fn verify(sig: &Signature, msg: &Vec<u8>, addr: &Address) -> (r: bool)
    ensures
        r == accepts(sig@, msg@, addr@),
{
    if !(sig.scheme == addr.scheme) {
        return false;
    }
    match addr.scheme {
        SignatureScheme::Secp256k1 => {
            let digest = blake2b_256(msg.as_slice());
            match secp_recover(digest.as_slice(), sig.bytes.as_slice()) {
                Some(pk) => bytes_eq(&pk, &addr.payload),
                None => false,
            }
        },
        SignatureScheme::Bls => bls_verify_bytes(
            addr.payload.as_slice(),
            sig.bytes.as_slice(),
            msg.as_slice(),
        ),
    }
}

} // verus!
