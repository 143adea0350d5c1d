use wallet_keystore::key_management::{
    export_key_info, generate_and_register, get_default, list_addrs,
};
use wallet_keystore::{Error, KeyStore, KeyStoreConfig, SignatureScheme};

fn encrypted_store(passphrase: &[u8]) -> KeyStore {
    KeyStore::new(KeyStoreConfig::Encrypted {
        passphrase: passphrase.to_vec(),
    })
    .unwrap()
}

#[test]
fn sealed_image_round_trips_every_entry() {
    let mut keystore = encrypted_store(b"correct horse battery staple");
    let mut addrs = Vec::new();
    for scheme in [
        SignatureScheme::Secp256k1,
        SignatureScheme::Bls,
        SignatureScheme::Secp256k1,
    ] {
        addrs.push(generate_and_register(scheme, &mut keystore).unwrap());
    }
    let blob = keystore.sealed().unwrap();
    let reloaded = KeyStore::from_sealed(&blob, b"correct horse battery staple".to_vec()).unwrap();

    let before = list_addrs(&keystore).unwrap();
    let after = list_addrs(&reloaded).unwrap();
    assert_eq!(before.len(), after.len());
    for (x, y) in before.iter().zip(after.iter()) {
        assert!(x.same_address(y));
        let a = export_key_info(x, &keystore).unwrap();
        let b = export_key_info(y, &reloaded).unwrap();
        assert!(a.same_secret(&b));
    }
    let d0 = get_default(&keystore).unwrap().unwrap();
    let d1 = get_default(&reloaded).unwrap().unwrap();
    assert!(d0.same_address(&d1));
}

#[test]
fn wrong_passphrase_fails_decryption_entirely() {
    let mut keystore = encrypted_store(b"right");
    generate_and_register(SignatureScheme::Secp256k1, &mut keystore).unwrap();
    let blob = keystore.sealed().unwrap();
    assert!(matches!(
        KeyStore::from_sealed(&blob, b"wrong".to_vec()),
        Err(Error::DecryptionFailed)
    ));
}

#[test]
fn tampered_image_fails_decryption() {
    let mut keystore = encrypted_store(b"pass");
    generate_and_register(SignatureScheme::Bls, &mut keystore).unwrap();
    let mut blob = keystore.sealed().unwrap();
    let last = blob.len() - 1;
    blob[last] ^= 0x01;
    assert!(matches!(
        KeyStore::from_sealed(&blob, b"pass".to_vec()),
        Err(Error::DecryptionFailed)
    ));
}

#[test]
fn truncated_image_fails_decryption() {
    let blob = vec![0u8; 27];
    assert!(matches!(
        KeyStore::from_sealed(&blob, b"pass".to_vec()),
        Err(Error::DecryptionFailed)
    ));
}

#[test]
fn ephemeral_store_has_no_sealed_image() {
    let keystore = KeyStore::new(KeyStoreConfig::Memory).unwrap();
    assert_eq!(keystore.sealed().unwrap_err(), Error::StorageIOError);
}

#[test]
fn empty_encrypted_store_round_trips() {
    let keystore = encrypted_store(b"p");
    let blob = keystore.sealed().unwrap();
    let reloaded = KeyStore::from_sealed(&blob, b"p".to_vec()).unwrap();
    assert!(list_addrs(&reloaded).unwrap().is_empty());
    assert!(get_default(&reloaded).unwrap().is_none());
}

#[test]
fn error_descriptions_are_distinct() {
    let all = [
        Error::NotFound,
        Error::KeyExists,
        Error::UnsupportedScheme,
        Error::InvalidKey,
        Error::DecryptionFailed,
        Error::CorruptStore,
        Error::StorageIOError,
    ];
    for (i, a) in all.iter().enumerate() {
        for (j, b) in all.iter().enumerate() {
            if i != j {
                assert_ne!(a.describe(), b.describe());
            }
        }
    }
}
