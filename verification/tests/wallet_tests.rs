use wallet_keystore::encoding::{encode_address, wallet_name};
use wallet_keystore::key_management::{
    balance_or_zero, export_key_info, find_key, generate_and_register, generate_key, get_default,
    has, import, list_addrs, remove_key, set_default, sign_message, try_find, verify,
};
use wallet_keystore::{Error, KeyStore, KeyStoreConfig, SignatureScheme};

fn addr_text(addr: &wallet_keystore::Address) -> String {
    String::from_utf8(encode_address(addr)).unwrap()
}

#[test]
fn wallet_delete_existing_key() {
    let key = generate_key(SignatureScheme::Secp256k1).unwrap();
    let addr = format!("wallet-{}", addr_text(&key.address)).into_bytes();
    assert_eq!(addr, wallet_name(&key.address));
    let mut keystore = KeyStore::new(KeyStoreConfig::Memory).unwrap();
    keystore.put(&addr, key.key_info.duplicate()).unwrap();
    remove_key(&key.address, &mut keystore).unwrap();
    assert!(keystore.get(&addr).is_err());
}

#[test]
fn wallet_delete_empty_keystore() {
    let key = generate_key(SignatureScheme::Secp256k1).unwrap();
    let mut keystore = KeyStore::new(KeyStoreConfig::Memory).unwrap();
    assert!(remove_key(&key.address, &mut keystore).is_err());
}

#[test]
fn wallet_delete_non_existent_key() {
    let key1 = generate_key(SignatureScheme::Secp256k1).unwrap();
    let key2 = generate_key(SignatureScheme::Secp256k1).unwrap();
    let addr1 = format!("wallet-{}", addr_text(&key1.address)).into_bytes();
    let mut keystore = KeyStore::new(KeyStoreConfig::Memory).unwrap();
    keystore.put(&addr1, key1.key_info.duplicate()).unwrap();
    assert!(remove_key(&key2.address, &mut keystore).is_err());
}

#[test]
fn wallet_delete_default_key() {
    let key1 = generate_key(SignatureScheme::Secp256k1).unwrap();
    let key2 = generate_key(SignatureScheme::Secp256k1).unwrap();
    let addr1 = format!("wallet-{}", addr_text(&key1.address)).into_bytes();
    let addr2 = format!("wallet-{}", addr_text(&key2.address)).into_bytes();
    let mut keystore = KeyStore::new(KeyStoreConfig::Memory).unwrap();
    keystore.put(&addr1, key1.key_info.duplicate()).unwrap();
    keystore.put(&addr2, key2.key_info.duplicate()).unwrap();
    keystore
        .put(&b"default".to_vec(), key2.key_info.duplicate())
        .unwrap();
    remove_key(&key2.address, &mut keystore).unwrap();
    assert!(get_default(&keystore).unwrap().is_none());
}

#[test]
fn sign_then_verify_succeeds_for_all_schemes() {
    for scheme in [SignatureScheme::Secp256k1, SignatureScheme::Bls] {
        let key = generate_key(scheme).unwrap();
        let msg = b"the quick brown fox".to_vec();
        let sig = wallet_keystore::key_management::sign(
            scheme,
            key.key_info.private_key(),
            &msg,
        )
        .unwrap();
        assert!(verify(&sig, &msg, &key.address));
    }
}

#[test]
fn verify_rejects_other_message_and_other_address() {
    for scheme in [SignatureScheme::Secp256k1, SignatureScheme::Bls] {
        let key = generate_key(scheme).unwrap();
        let other = generate_key(scheme).unwrap();
        let msg = b"pay 5 to a".to_vec();
        let altered = b"pay 5 to b".to_vec();
        let sig = wallet_keystore::key_management::sign(
            scheme,
            key.key_info.private_key(),
            &msg,
        )
        .unwrap();
        assert!(!verify(&sig, &altered, &key.address));
        assert!(!verify(&sig, &msg, &other.address));
        let misdeclared = wallet_keystore::Signature {
            scheme: match scheme {
                SignatureScheme::Secp256k1 => SignatureScheme::Bls,
                SignatureScheme::Bls => SignatureScheme::Secp256k1,
            },
            bytes: sig.bytes.clone(),
        };
        assert!(!verify(&misdeclared, &msg, &key.address));
    }
}

#[test]
fn sign_message_uses_registered_key() {
    let mut keystore = KeyStore::new(KeyStoreConfig::Memory).unwrap();
    let addr = generate_and_register(SignatureScheme::Bls, &mut keystore).unwrap();
    let msg = b"hello".to_vec();
    let sig = sign_message(&addr, &msg, &keystore).unwrap();
    assert!(verify(&sig, &msg, &addr));
    let missing = generate_key(SignatureScheme::Bls).unwrap();
    assert_eq!(
        sign_message(&missing.address, &msg, &keystore).unwrap_err(),
        Error::NotFound
    );
}

#[test]
fn sign_with_malformed_key_fails_invalid_key() {
    let bad = vec![0u8; 31];
    let msg = b"m".to_vec();
    assert_eq!(
        wallet_keystore::key_management::sign(SignatureScheme::Secp256k1, &bad, &msg)
            .unwrap_err(),
        Error::InvalidKey
    );
}

#[test]
fn empty_store_has_no_default_address() {
    let keystore = KeyStore::new(KeyStoreConfig::Memory).unwrap();
    assert!(get_default(&keystore).unwrap().is_none());
}

#[test]
fn first_generated_key_becomes_default_and_stays() {
    let mut keystore = KeyStore::new(KeyStoreConfig::Memory).unwrap();
    let a = generate_and_register(SignatureScheme::Secp256k1, &mut keystore).unwrap();
    let d = get_default(&keystore).unwrap().unwrap();
    assert!(d.same_address(&a));
    let b = generate_and_register(SignatureScheme::Secp256k1, &mut keystore).unwrap();
    let d = get_default(&keystore).unwrap().unwrap();
    assert!(d.same_address(&a));
    set_default(&b, &mut keystore).unwrap();
    remove_key(&a, &mut keystore).unwrap();
    let d = get_default(&keystore).unwrap().unwrap();
    assert!(d.same_address(&b));
}

#[test]
fn deleting_the_default_key_clears_default() {
    let mut keystore = KeyStore::new(KeyStoreConfig::Memory).unwrap();
    let a = generate_and_register(SignatureScheme::Secp256k1, &mut keystore).unwrap();
    remove_key(&a, &mut keystore).unwrap();
    assert!(get_default(&keystore).unwrap().is_none());
    assert!(!has(&a, &keystore));
}

#[test]
fn deleting_a_non_default_key_leaves_default() {
    let mut keystore = KeyStore::new(KeyStoreConfig::Memory).unwrap();
    let a = generate_and_register(SignatureScheme::Secp256k1, &mut keystore).unwrap();
    let b = generate_and_register(SignatureScheme::Bls, &mut keystore).unwrap();
    remove_key(&b, &mut keystore).unwrap();
    let d = get_default(&keystore).unwrap().unwrap();
    assert!(d.same_address(&a));
}

#[test]
fn set_default_on_unregistered_address_fails_not_found() {
    let mut keystore = KeyStore::new(KeyStoreConfig::Memory).unwrap();
    let a = generate_and_register(SignatureScheme::Secp256k1, &mut keystore).unwrap();
    let stranger = generate_key(SignatureScheme::Secp256k1).unwrap();
    assert_eq!(
        set_default(&stranger.address, &mut keystore).unwrap_err(),
        Error::NotFound
    );
    let d = get_default(&keystore).unwrap().unwrap();
    assert!(d.same_address(&a));
    assert_eq!(list_addrs(&keystore).unwrap().len(), 1);
}

#[test]
fn import_twice_fails_key_exists_and_keeps_first_bytes() {
    let mut keystore = KeyStore::new(KeyStoreConfig::Memory).unwrap();
    let key = generate_key(SignatureScheme::Secp256k1).unwrap();
    let a = import(key.key_info.duplicate(), &mut keystore).unwrap();
    assert!(a.same_address(&key.address));
    assert_eq!(
        import(key.key_info.duplicate(), &mut keystore).unwrap_err(),
        Error::KeyExists
    );
    let exported = export_key_info(&a, &keystore).unwrap();
    assert!(exported.same_secret(&key.key_info));
}

#[test]
fn import_rejects_malformed_key_bytes() {
    let mut keystore = KeyStore::new(KeyStoreConfig::Memory).unwrap();
    let bad = wallet_keystore::KeyInfo::new(SignatureScheme::Bls, vec![1u8; 7]);
    assert_eq!(import(bad, &mut keystore).unwrap_err(), Error::InvalidKey);
    assert!(list_addrs(&keystore).unwrap().is_empty());
}

#[test]
fn list_addrs_returns_registered_addresses_without_default() {
    let mut keystore = KeyStore::new(KeyStoreConfig::Memory).unwrap();
    let a = generate_and_register(SignatureScheme::Secp256k1, &mut keystore).unwrap();
    let b = generate_and_register(SignatureScheme::Bls, &mut keystore).unwrap();
    let listed = list_addrs(&keystore).unwrap();
    assert_eq!(listed.len(), 2);
    assert!(listed[0].same_address(&a));
    assert!(listed[1].same_address(&b));
}

#[test]
fn list_addrs_reports_corrupt_wallet_names() {
    let mut keystore = KeyStore::new(KeyStoreConfig::Memory).unwrap();
    let key = generate_key(SignatureScheme::Secp256k1).unwrap();
    keystore
        .put(&b"wallet-zz".to_vec(), key.key_info.duplicate())
        .unwrap();
    assert_eq!(list_addrs(&keystore).unwrap_err(), Error::CorruptStore);
}

#[test]
fn zero_bls_key_is_rejected_as_invalid() {
    let mut keystore = KeyStore::new(KeyStoreConfig::Memory).unwrap();
    let zero = wallet_keystore::KeyInfo::new(SignatureScheme::Bls, vec![0u8; 32]);
    assert_eq!(import(zero, &mut keystore).unwrap_err(), Error::InvalidKey);
    let msg = b"m".to_vec();
    assert_eq!(
        wallet_keystore::key_management::sign(SignatureScheme::Bls, &vec![0u8; 32], &msg)
            .unwrap_err(),
        Error::InvalidKey
    );
}

#[test]
fn balance_answer_falls_back_to_zero() {
    assert_eq!(balance_or_zero(Some("12345".to_string())), "12345");
    assert_eq!(balance_or_zero(None), "0");
}

#[test]
fn address_encoding_is_scheme_digit_then_lowercase_hex() {
    let a = wallet_keystore::Address::new(SignatureScheme::Secp256k1, vec![0xab, 0x01, 0xff]);
    assert_eq!(addr_text(&a), "1ab01ff");
    assert_eq!(wallet_name(&a), b"wallet-1ab01ff".to_vec());
    let b = wallet_keystore::Address::new(SignatureScheme::Bls, vec![0x00]);
    assert_eq!(addr_text(&b), "300");
    assert_eq!(wallet_name(&b), b"wallet-300".to_vec());
}

#[test]
fn find_and_try_find_agree_on_registered_keys() {
    let mut keystore = KeyStore::new(KeyStoreConfig::Memory).unwrap();
    let a = generate_and_register(SignatureScheme::Secp256k1, &mut keystore).unwrap();
    let k = find_key(&a, &keystore).unwrap();
    let info = try_find(&a, &keystore).unwrap();
    assert!(k.key_info.same_secret(&info));
    assert!(k.address.same_address(&a));
}
