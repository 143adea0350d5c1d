//! A wallet keystore: maps storage names to key material, derives addresses
//! from signature schemes, signs and verifies messages, and keeps a default
//! key selection policy. An encrypted-at-rest image of the store can be
//! produced and reloaded.

pub mod crypto;
pub mod encoding;
pub mod errors;
pub mod image;
pub mod key_management;
pub mod keystore;
pub mod model;

pub use errors::Error;
pub use keystore::{KeyStore, KeyStoreConfig};
pub use model::{Address, Key, KeyInfo, Signature, SignatureScheme};
