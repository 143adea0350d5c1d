//! The wallet façade: higher-level operations layered over the keystore
//! backend and the crypto operations. This is where the address-to-storage
//! naming and the default-pointer policy live.
//!
//! The `default` entry is a copy of some registered entry's key record, not
//! an alias: deleting a key whose record equals the current default also
//! clears `default`, so the pointer never dangles.

use vstd::prelude::*;

use crate::crypto::{accepts, address_of, key_ok, signature_bytes_of};
use crate::crypto;
use crate::encoding::{
    decoded_address, default_name, default_name_bytes, is_wallet_name, lemma_wallet_name_not_default,
    parse_wallet_name, wallet_name, wallet_name_of,
};
use crate::errors::Error;
use crate::keystore::KeyStore;
use crate::model::{Address, AddressView, Key, KeyInfo, KeyInfoView, Signature, SignatureScheme, SignatureView};

verus! {

/// Generate a fresh key pair for a scheme; the pairing of its derived
/// address with its key record. Secp256k1 generation always succeeds; BLS
/// generation fails `InvalidKey` only in the negligible case that every
/// drawn scalar was zero.
pub fn generate_key(scheme: SignatureScheme) -> (r: Result<Key, Error>)
    ensures
        scheme == SignatureScheme::Secp256k1 ==> r is Ok,
        r matches Err(e) ==> e == Error::InvalidKey && scheme == SignatureScheme::Bls,
        r matches Ok(k) ==> {
            &&& k@.key_info.scheme == scheme
            &&& key_ok(k@.key_info)
            &&& k@.address == address_of(k@.key_info)
        },
{
    crypto::generate_key(scheme)
}

/// Look up the key registered for an address; fails `NotFound` if the
/// address has no entry.
pub fn find_key(addr: &Address, keystore: &KeyStore) -> (r: Result<Key, Error>)
    requires
        keystore.wf(),
    ensures
        match r {
            Ok(k) => {
                &&& keystore@.contains_key(wallet_name_of(addr@))
                &&& k@.address == addr@
                &&& k@.key_info == keystore@[wallet_name_of(addr@)]
            },
            Err(e) => e == Error::NotFound && !keystore@.contains_key(wallet_name_of(addr@)),
        },
{
    let name = wallet_name(addr);
    match keystore.get(&name) {
        Ok(key_info) => Ok(Key { address: addr.duplicate(), key_info }),
        Err(e) => Err(e),
    }
}

/// The secondary lookup path: the raw key record for an address, for
/// callers that reconstruct a key on the fly rather than requiring a prior
/// registration. The conditions under which more than the registered entry
/// is found are a property of the chain-state resolution boundary, so this
/// store resolves exactly the registered entries.
pub fn try_find(addr: &Address, keystore: &KeyStore) -> (r: Result<KeyInfo, Error>)
    requires
        keystore.wf(),
    ensures
        match r {
            Ok(info) => keystore@.contains_key(wallet_name_of(addr@)) && info@ == keystore@[
                wallet_name_of(addr@)
            ],
            Err(e) => e == Error::NotFound && !keystore@.contains_key(wallet_name_of(addr@)),
        },
{
    let name = wallet_name(addr);
    keystore.get(&name)
}

/// Export the raw persisted key record for an address; fails `NotFound` if
/// absent. Callers must treat the result as sensitive.
pub fn export_key_info(addr: &Address, keystore: &KeyStore) -> (r: Result<KeyInfo, Error>)
    requires
        keystore.wf(),
    ensures
        match r {
            Ok(info) => keystore@.contains_key(wallet_name_of(addr@)) && info@ == keystore@[
                wallet_name_of(addr@)
            ],
            Err(e) => e == Error::NotFound && !keystore@.contains_key(wallet_name_of(addr@)),
        },
{
    let name = wallet_name(addr);
    keystore.get(&name)
}

/// Whether a key is registered for an address, without retrieving it.
pub fn has(addr: &Address, keystore: &KeyStore) -> (r: bool)
    requires
        keystore.wf(),
    ensures
        r == keystore@.contains_key(wallet_name_of(addr@)),
{
    let name = wallet_name(addr);
    keystore.contains(&name)
}

/// The addresses a snapshot of storage names stands for: names outside the
/// `wallet-` namespace (the `default` sentinel among them) are skipped, and
/// a malformed name inside the namespace spoils the whole listing.
pub open spec fn listed_addresses(names: Seq<Seq<u8>>) -> Option<Seq<AddressView>>
    decreases names.len(),
{
    if names.len() == 0 {
        Some(Seq::empty())
    } else {
        let rest = listed_addresses(names.skip(1));
        if !is_wallet_name(names[0]) {
            rest
        } else {
            match decoded_address(names[0].skip(7)) {
                Some(a) => match rest {
                    Some(r) => Some(seq![a] + r),
                    None => None,
                },
                None => None,
            }
        }
    }
}

/// The views of a sequence of addresses.
pub open spec fn address_views(s: Seq<Address>) -> Seq<AddressView> {
    s.map_values(|a: Address| a@)
}

/// List the addresses of every registered key, in the backend's iteration
/// order; the `default` sentinel is not an address and is excluded.
pub fn list_addrs(keystore: &KeyStore) -> (r: Result<Vec<Address>, Error>)
    requires
        keystore.wf(),
    ensures
        match r {
            Ok(addrs) => listed_addresses(keystore.names()) == Some(address_views(addrs@)),
            Err(e) => e == Error::CorruptStore && listed_addresses(keystore.names()) is None,
        },
{
    let names = keystore.list();
    let ghost all = keystore.names();
    let mut out: Vec<Address> = Vec::new();
    let mut i: usize = 0;
    proof {
        assert(all.skip(0) =~= all);
        assert(address_views(out@) =~= Seq::<AddressView>::empty());
        if let Some(rest) = listed_addresses(all) {
            assert(address_views(out@) + rest =~= rest);
        }
    }
    while i < names.len()
        invariant
            0 <= i <= names@.len(),
            all == keystore.names(),
            names@.map_values(|n: Vec<u8>| n@) == all,
            all.len() == names@.len(),
            match listed_addresses(all.skip(i as int)) {
                Some(rest) => listed_addresses(all) == Some(address_views(out@) + rest),
                None => listed_addresses(all) is None,
            },
        decreases names@.len() - i,
    {
        proof {
            assert(all.skip(i as int)[0] == all[i as int]);
            assert(names@.map_values(|n: Vec<u8>| n@)[i as int] == names@[i as int]@);
            assert(all[i as int] == names@[i as int]@);
            assert(all.skip(i as int).skip(1) =~= all.skip(i + 1 as int));
        }
        match parse_wallet_name(&names[i]) {
            Ok(a) => {
                out.push(a);
                proof {
                    let prev = out@.drop_last();
                    assert(address_views(out@) =~= address_views(prev).push(out@.last()@));
                    if let Some(rest) = listed_addresses(all.skip(i + 1 as int)) {
                        assert(listed_addresses(all.skip(i as int)) == Some(
                            seq![out@.last()@] + rest,
                        ));
                        assert(address_views(prev) + (seq![out@.last()@] + rest)
                            =~= address_views(out@) + rest);
                    }
                }
            },
            Err(in_namespace) => {
                if in_namespace {
                    proof {
                        assert(listed_addresses(all.skip(i as int)) is None);
                    }
                    return Err(Error::CorruptStore);
                }
            },
        }
        i += 1;
    }
    proof {
        assert(all.skip(all.len() as int) =~= Seq::<Seq<u8>>::empty());
        if let Some(rest) = listed_addresses(all.skip(all.len() as int)) {
            assert(address_views(out@) + rest =~= address_views(out@));
        }
    }
    Ok(out)
}

/// The address of the current default key, or none when no default is set —
/// an empty store is a normal answer, not an error. Fails `InvalidKey` only
/// if the stored default record is malformed.
pub fn get_default(keystore: &KeyStore) -> (r: Result<Option<Address>, Error>)
    requires
        keystore.wf(),
    ensures
        !keystore@.contains_key(default_name()) ==> (r matches Ok(a) && a is None),
        keystore@.contains_key(default_name()) && key_ok(keystore@[default_name()]) ==> (r matches
            Ok(a) && a matches Some(addr) && addr@ == address_of(keystore@[default_name()])),
        keystore@.contains_key(default_name()) && !key_ok(keystore@[default_name()])
            ==> r == Err::<Option<Address>, Error>(Error::InvalidKey),
{
    let name = default_name_bytes();
    match keystore.get(&name) {
        Err(_) => Ok(None),
        Ok(info) => match crypto::key_from_info(info) {
            Ok(key) => Ok(Some(key.address)),
            Err(e) => Err(e),
        },
    }
}

/// Point `default` at the key registered for an address. Fails `NotFound`,
/// leaving the store unchanged, exactly when the address has no entry;
/// otherwise the `default` entry becomes a copy of that entry's record and
/// nothing else changes.
pub fn set_default(addr: &Address, keystore: &mut KeyStore) -> (r: Result<(), Error>)
    requires
        old(keystore).wf(),
    ensures
        final(keystore).wf(),
        final(keystore).persistence() == old(keystore).persistence(),
        match r {
            Ok(()) => {
                &&& old(keystore)@.contains_key(wallet_name_of(addr@))
                &&& final(keystore)@ == old(keystore)@.insert(
                    default_name(),
                    old(keystore)@[wallet_name_of(addr@)],
                )
            },
            Err(e) => {
                &&& e == Error::NotFound
                &&& !old(keystore)@.contains_key(wallet_name_of(addr@))
                &&& final(keystore)@ == old(keystore)@
                &&& final(keystore).names() == old(keystore).names()
            },
        },
{
    let name = wallet_name(addr);
    let info = match keystore.get(&name) {
        Ok(info) => info,
        Err(e) => {
            return Err(e);
        },
    };
    let dflt = default_name_bytes();
    let ghost m0 = keystore@;
    if keystore.contains(&dflt) {
        match keystore.remove(&dflt) {
            Ok(_) => (),
            Err(_) => {
                proof {
                    assert(false);
                }
            },
        }
    }
    match keystore.put(&dflt, info) {
        Ok(()) => {
            proof {
                assert(final(keystore)@ =~= m0.insert(default_name(), m0[wallet_name_of(addr@)]));
            }
            Ok(())
        },
        Err(_) => {
            proof {
                assert(false);
            }
            Err(Error::StorageIOError)
        },
    }
}

/// Derive the address of a key record and register the record under it.
/// Never overwrites: fails `KeyExists`, leaving the store unchanged, exactly
/// when an entry for the derived address already exists; fails `InvalidKey`
/// exactly when the record is malformed for its scheme.
pub fn import(key_info: KeyInfo, keystore: &mut KeyStore) -> (r: Result<Address, Error>)
    requires
        old(keystore).wf(),
    ensures
        final(keystore).wf(),
        final(keystore).persistence() == old(keystore).persistence(),
        !key_ok(key_info@) ==> r == Err::<Address, Error>(Error::InvalidKey) && final(keystore)@
            == old(keystore)@ && final(keystore).names() == old(keystore).names(),
        key_ok(key_info@) && old(keystore)@.contains_key(wallet_name_of(address_of(key_info@)))
            ==> r == Err::<Address, Error>(Error::KeyExists) && final(keystore)@ == old(keystore)@
            && final(keystore).names() == old(keystore).names(),
        key_ok(key_info@) && !old(keystore)@.contains_key(wallet_name_of(address_of(key_info@)))
            ==> (r matches Ok(a) && a@ == address_of(key_info@) && final(keystore)@
            == old(keystore)@.insert(wallet_name_of(address_of(key_info@)), key_info@)
            && final(keystore).names()
            == old(keystore).names().push(wallet_name_of(address_of(key_info@)))),
{
    let key = match crypto::key_from_info(key_info) {
        Ok(k) => k,
        Err(e) => {
            return Err(e);
        },
    };
    let name = wallet_name(&key.address);
    match keystore.put(&name, key.key_info) {
        Ok(()) => Ok(key.address),
        Err(e) => Err(e),
    }
}

/// Register an already-derived key pairing: its record is stored under its
/// address's wallet name, and if no default is set yet the record is also
/// copied to `default`. Fails `KeyExists`, leaving the store unchanged,
/// exactly when the address already has an entry.
pub fn register_key(key: Key, keystore: &mut KeyStore) -> (r: Result<Address, Error>)
    requires
        old(keystore).wf(),
    ensures
        final(keystore).wf(),
        final(keystore).persistence() == old(keystore).persistence(),
        old(keystore)@.contains_key(wallet_name_of(key@.address)) ==> r == Err::<Address, Error>(
            Error::KeyExists,
        ) && final(keystore)@ == old(keystore)@ && final(keystore).names() == old(keystore).names(),
        !old(keystore)@.contains_key(wallet_name_of(key@.address)) ==> (r matches Ok(a) && a@
            == key@.address && final(keystore)@ == (if old(keystore)@.contains_key(default_name()) {
            old(keystore)@.insert(wallet_name_of(key@.address), key@.key_info)
        } else {
            old(keystore)@.insert(wallet_name_of(key@.address), key@.key_info).insert(
                default_name(),
                key@.key_info,
            )
        })),
{
    let name = wallet_name(&key.address);
    let Key { address, key_info } = key;
    match keystore.put(&name, key_info.duplicate()) {
        Err(e) => Err(e),
        Ok(()) => {
            proof {
                lemma_wallet_name_not_default(address@);
            }
            let dflt = default_name_bytes();
            if !keystore.contains(&dflt) {
                match keystore.put(&dflt, key_info) {
                    Ok(()) => (),
                    Err(_) => {
                        proof {
                            assert(false);
                        }
                    },
                }
            }
            Ok(address)
        },
    }
}

/// Generate a fresh key for a scheme and register it; the new address is
/// returned. The store gains the full entry (and the first key generated in
/// an empty store becomes the default) or, if generation or registration
/// fails, nothing at all — no partial registration is ever observable.
pub fn generate_and_register(scheme: SignatureScheme, keystore: &mut KeyStore) -> (r: Result<
    Address,
    Error,
>)
    requires
        old(keystore).wf(),
    ensures
        final(keystore).wf(),
        final(keystore).persistence() == old(keystore).persistence(),
        r matches Err(e) ==> final(keystore)@ == old(keystore)@ && final(keystore).names()
            == old(keystore).names() && ((e == Error::KeyExists && exists|a: AddressView|
            old(keystore)@.contains_key(#[trigger] wallet_name_of(a))) || (e == Error::InvalidKey
            && scheme == SignatureScheme::Bls)),
        r matches Ok(a) ==> {
            let n = wallet_name_of(a@);
            &&& !old(keystore)@.contains_key(n)
            &&& final(keystore)@.contains_key(n)
            &&& final(keystore)@[n].scheme == scheme
            &&& key_ok(final(keystore)@[n])
            &&& a@ == address_of(final(keystore)@[n])
            &&& final(keystore)@ == (if old(keystore)@.contains_key(default_name()) {
                old(keystore)@.insert(n, final(keystore)@[n])
            } else {
                old(keystore)@.insert(n, final(keystore)@[n]).insert(
                    default_name(),
                    final(keystore)@[n],
                )
            })
        },
{
    let key = match generate_key(scheme) {
        Ok(k) => k,
        Err(e) => {
            return Err(e);
        },
    };
    let ghost kv = key@;
    match register_key(key, keystore) {
        Ok(a) => {
            proof {
                lemma_wallet_name_not_default(a@);
            }
            Ok(a)
        },
        Err(e) => {
            proof {
                assert(old(keystore)@.contains_key(wallet_name_of(kv.address)));
            }
            Err(e)
        },
    }
}

/// Delete the key registered for an address; fails `NotFound`, leaving the
/// store unchanged, exactly when the address has no entry. If the deleted
/// entry's record is byte-identical to the current `default` record — a
/// comparison by value, since `default` is a copy, not an alias — `default`
/// is cleared as well; a non-default deletion leaves `default` untouched.
pub fn remove_key(addr: &Address, keystore: &mut KeyStore) -> (r: Result<(), Error>)
    requires
        old(keystore).wf(),
    ensures
        final(keystore).wf(),
        final(keystore).persistence() == old(keystore).persistence(),
        match r {
            Ok(()) => {
                let n = wallet_name_of(addr@);
                &&& old(keystore)@.contains_key(n)
                &&& final(keystore)@ == (if old(keystore)@.contains_key(default_name())
                    && old(keystore)@[default_name()] == old(keystore)@[n] {
                    old(keystore)@.remove(n).remove(default_name())
                } else {
                    old(keystore)@.remove(n)
                })
            },
            Err(e) => {
                &&& e == Error::NotFound
                &&& !old(keystore)@.contains_key(wallet_name_of(addr@))
                &&& final(keystore)@ == old(keystore)@
                &&& final(keystore).names() == old(keystore).names()
            },
        },
{
    let name = wallet_name(addr);
    let removed = match keystore.remove(&name) {
        Ok(info) => info,
        Err(e) => {
            return Err(e);
        },
    };
    proof {
        lemma_wallet_name_not_default(addr@);
    }
    let ghost m0 = old(keystore)@;
    let dflt = default_name_bytes();
    match keystore.get(&dflt) {
        Ok(default_info) => {
            if default_info.same_secret(&removed) {
                match keystore.remove(&dflt) {
                    Ok(_) => (),
                    Err(_) => {
                        proof {
                            assert(false);
                        }
                    },
                }
            }
        },
        Err(_) => (),
    }
    Ok(())
}

/// Sign a message for an address: look the key up (trying the registered
/// path, then the reconstruction path) and sign with it. A produced
/// signature verifies against the address the stored record derives.
pub fn sign_message(addr: &Address, msg: &Vec<u8>, keystore: &KeyStore) -> (r: Result<
    Signature,
    Error,
>)
    requires
        keystore.wf(),
    ensures
        !keystore@.contains_key(wallet_name_of(addr@)) ==> r == Err::<Signature, Error>(
            Error::NotFound,
        ),
        keystore@.contains_key(wallet_name_of(addr@)) && !key_ok(keystore@[wallet_name_of(addr@)])
            ==> r == Err::<Signature, Error>(Error::InvalidKey),
        keystore@.contains_key(wallet_name_of(addr@)) && key_ok(keystore@[wallet_name_of(addr@)])
            ==> (r matches Ok(sig) && {
            let ki = keystore@[wallet_name_of(addr@)];
            &&& sig@ == (SignatureView { scheme: ki.scheme, bytes: signature_bytes_of(ki, msg@) })
            &&& accepts(sig@, msg@, address_of(ki))
        }),
{
    let key = match find_key(addr, keystore) {
        Ok(k) => k,
        Err(_) => {
            let key_info = match try_find(addr, keystore) {
                Ok(info) => info,
                Err(e) => {
                    return Err(e);
                },
            };
            match crypto::key_from_info(key_info) {
                Ok(k) => k,
                Err(e) => {
                    return Err(e);
                },
            }
        },
    };
    crypto::sign(key.key_info.key_type(), key.key_info.private_key(), msg)
}

/// The first registered key becomes the default: with no default present,
/// registration stores byte-identical records under the wallet name and
/// the `default` sentinel.
pub proof fn lemma_first_registration_sets_default(
    s: Map<Seq<u8>, KeyInfoView>,
    a: AddressView,
    ki: KeyInfoView,
)
    requires
        !s.contains_key(default_name()),
    ensures
        ({
            let t = s.insert(wallet_name_of(a), ki).insert(default_name(), ki);
            &&& t[wallet_name_of(a)] == ki
            &&& t[default_name()] == t[wallet_name_of(a)]
        }),
{
    lemma_wallet_name_not_default(a);
}

/// Registering a key while a default exists leaves the `default` entry
/// byte-identical: a wallet storage name never collides with the sentinel.
pub proof fn lemma_registration_keeps_default(
    s: Map<Seq<u8>, KeyInfoView>,
    a: AddressView,
    ki: KeyInfoView,
)
    requires
        s.contains_key(default_name()),
    ensures
        s.insert(wallet_name_of(a), ki).contains_key(default_name()),
        s.insert(wallet_name_of(a), ki)[default_name()] == s[default_name()],
{
    lemma_wallet_name_not_default(a);
}

/// The default key follows explicit selection and survives unrelated
/// deletion: starting from an empty store, registering a first key (which
/// becomes the default), then a second key (the default stays with the
/// first), then selecting the second as default and deleting the first —
/// the exact map transformations that `register_key`, `set_default` and
/// `remove_key` ensure — leaves the default at the second key's record.
pub proof fn lemma_default_follows_selection(
    a: AddressView,
    b: AddressView,
    ki_a: KeyInfoView,
    ki_b: KeyInfoView,
)
    requires
        a == address_of(ki_a),
        b == address_of(ki_b),
        a != b,
    ensures
        ({
            let s1 = Map::<Seq<u8>, KeyInfoView>::empty().insert(wallet_name_of(a), ki_a).insert(
                default_name(),
                ki_a,
            );
            let s2 = s1.insert(wallet_name_of(b), ki_b);
            let s3 = s2.insert(default_name(), s2[wallet_name_of(b)]);
            let s4 = if s3.contains_key(default_name()) && s3[default_name()] == s3[wallet_name_of(
                a,
            )] {
                s3.remove(wallet_name_of(a)).remove(default_name())
            } else {
                s3.remove(wallet_name_of(a))
            };
            &&& s1[default_name()] == ki_a
            &&& s1[wallet_name_of(a)] == ki_a
            &&& s2[default_name()] == ki_a
            &&& s4.contains_key(default_name())
            &&& s4[default_name()] == ki_b
        }),
{
    assert(wallet_name_of(a) != wallet_name_of(b)) by {
        if wallet_name_of(a) == wallet_name_of(b) {
            crate::encoding::lemma_wallet_name_injective(a, b);
        }
    }
    lemma_wallet_name_not_default(a);
    lemma_wallet_name_not_default(b);
    assert(ki_a != ki_b);
}

/// The settled answer of a balance query: the token amount the chain state
/// holds for an address with an account record, and zero for an address
/// without one.
pub fn balance_or_zero(found: Option<String>) -> (r: String)
    ensures
        match found {
            Some(b) => r@ == b@,
            None => r@ == "0"@,
        },
{
    match found {
        Some(b) => b,
        None => "0".to_owned(),
    }
}

/// Sign a message with private key bytes under a scheme; fails `InvalidKey`
/// exactly when the bytes are malformed for the scheme. A produced
/// signature verifies against the signer's own derived address.
pub fn sign(scheme: SignatureScheme, private_key: &Vec<u8>, msg: &Vec<u8>) -> (r: Result<
    Signature,
    Error,
>)
    ensures
        r is Ok <==> key_ok(KeyInfoView { scheme, private_key: private_key@ }),
        r matches Err(e) ==> e == Error::InvalidKey,
        r matches Ok(sig) ==> {
            &&& sig@.scheme == scheme
            &&& sig@.bytes == signature_bytes_of(
                KeyInfoView { scheme, private_key: private_key@ },
                msg@,
            )
            &&& accepts(
                sig@,
                msg@,
                address_of(KeyInfoView { scheme, private_key: private_key@ }),
            )
        },
{
    crypto::sign(scheme, private_key, msg)
}

/// Verify a signature over a message for an address; a mismatch is the
/// normal `false` answer, never an error, and no keystore access or lock is
/// involved.
pub fn verify(sig: &Signature, msg: &Vec<u8>, addr: &Address) -> (r: bool)
    ensures
        r == accepts(sig@, msg@, addr@),
{
    crypto::verify(sig, msg, addr)
}

} // verus!
