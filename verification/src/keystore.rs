//! The keystore backend: a mapping from storage names to key records.
//!
//! The store keeps its entries as an ordered vector with pairwise-distinct
//! names, and is specified through its map view (`name -> key record`). An
//! ephemeral store does no persistence; an encrypted store additionally
//! carries the passphrase and salt from which its sealed image is derived.

use vstd::prelude::*;

use crate::crypto::{aead_open_bytes, aead_seal_bytes, derive_key, random_bytes};
use crate::errors::Error;
use crate::image::{
    KDF_ROUNDS, decoded_entries, encodable, encodable_entry, encoded_entries, encoded_entry,
    lemma_encoded_entries_take_step, le2, le2_value, unsealed_plain,
};
use crate::model::{KeyInfo, KeyInfoView, SignatureScheme, append_bytes, bytes_eq, copy_bytes, copy_range};

verus! {

/// One entry as the specification sees it.
pub type EntryView = (Seq<u8>, KeyInfoView);

/// The views of a sequence of owned entries.
pub open spec fn pair_views(s: Seq<(Vec<u8>, KeyInfo)>) -> Seq<EntryView> {
    s.map_values(|p: (Vec<u8>, KeyInfo)| (p.0@, p.1@))
}

/// The names of a sequence of entries, in order.
pub open spec fn names_of(s: Seq<EntryView>) -> Seq<Seq<u8>> {
    s.map_values(|p: EntryView| p.0)
}

/// Pairwise-distinct names.
pub open spec fn distinct_names(s: Seq<EntryView>) -> bool {
    forall|i: int, j: int| 0 <= i < j < s.len() ==> s[i].0 != s[j].0
}

/// The mapping a sequence of entries stands for; later entries win.
pub open spec fn entries_map(s: Seq<EntryView>) -> Map<Seq<u8>, KeyInfoView>
    decreases s.len(),
{
    if s.len() == 0 {
        Map::empty()
    } else {
        entries_map(s.drop_last()).insert(s.last().0, s.last().1)
    }
}

/// A name is in the map exactly when some entry carries it.
pub proof fn lemma_entries_map_domain(s: Seq<EntryView>, k: Seq<u8>)
    ensures
        entries_map(s).contains_key(k) <==> exists|i: int| 0 <= i < s.len() && s[i].0 == k,
    decreases s.len(),
{
    if s.len() > 0 {
        lemma_entries_map_domain(s.drop_last(), k);
        if entries_map(s).contains_key(k) {
            if s.last().0 == k {
                assert(s[s.len() - 1].0 == k);
            } else {
                let i = choose|i: int| 0 <= i < s.drop_last().len() && s.drop_last()[i].0 == k;
                assert(s[i].0 == k);
            }
        }
        if exists|i: int| 0 <= i < s.len() && s[i].0 == k {
            let i = choose|i: int| 0 <= i < s.len() && s[i].0 == k;
            if i < s.len() - 1 {
                assert(s.drop_last()[i].0 == k);
            }
        }
    }
}

/// With distinct names, each entry's name maps to that entry's record.
pub proof fn lemma_entries_map_index(s: Seq<EntryView>, i: int)
    requires
        distinct_names(s),
        0 <= i < s.len(),
    ensures
        entries_map(s).contains_key(s[i].0),
        entries_map(s)[s[i].0] == s[i].1,
    decreases s.len(),
{
    lemma_entries_map_domain(s, s[i].0);
    if i == s.len() - 1 {
    } else {
        assert(distinct_names(s.drop_last()));
        lemma_entries_map_index(s.drop_last(), i);
        assert(s[i].0 != s.last().0);
    }
}

/// Removing the entry at `i` removes exactly its name from the map.
pub proof fn lemma_entries_map_remove(s: Seq<EntryView>, i: int)
    requires
        distinct_names(s),
        0 <= i < s.len(),
    ensures
        distinct_names(s.remove(i)),
        entries_map(s.remove(i)) == entries_map(s).remove(s[i].0),
    decreases s.len(),
{
    assert forall|x: int, y: int| 0 <= x < y < s.remove(i).len() implies s.remove(i)[x].0 != s.remove(
        i,
    )[y].0 by {
        if x < i {
            if y < i {
                assert(s.remove(i)[x] == s[x] && s.remove(i)[y] == s[y]);
            } else {
                assert(s.remove(i)[x] == s[x] && s.remove(i)[y] == s[y + 1]);
            }
        } else {
            assert(s.remove(i)[x] == s[x + 1] && s.remove(i)[y] == s[y + 1]);
        }
    }
    if i == s.len() - 1 {
        assert(s.remove(i) =~= s.drop_last());
        lemma_entries_map_domain(s.drop_last(), s[i].0);
        assert(!entries_map(s.drop_last()).contains_key(s[i].0));
        assert(entries_map(s.drop_last()) =~= entries_map(s.drop_last()).insert(
            s.last().0,
            s.last().1,
        ).remove(s[i].0));
    } else {
        assert(distinct_names(s.drop_last()));
        lemma_entries_map_remove(s.drop_last(), i);
        assert(s.remove(i).drop_last() =~= s.drop_last().remove(i));
        assert(s.remove(i).last() == s.last());
        assert(s[i].0 != s.last().0);
        assert(entries_map(s.remove(i)) == entries_map(s.drop_last().remove(i)).insert(
            s.last().0,
            s.last().1,
        ));
        assert(entries_map(s.drop_last()).remove(s[i].0).insert(s.last().0, s.last().1)
            =~= entries_map(s.drop_last()).insert(s.last().0, s.last().1).remove(s[i].0));
    }
}

/// How the store persists: ephemeral, or encrypted at rest under a
/// passphrase-derived key.
pub enum KeyStoreConfig {
    Memory,
    Encrypted { passphrase: Vec<u8> },
}

/// Specification view of a store's persistence mode.
pub enum PersistenceView {
    Ephemeral,
    Encrypted { passphrase: Seq<u8>, salt: Seq<u8> },
}

pub(crate) struct EncryptionContext {
    pub passphrase: Vec<u8>,
    pub salt: Vec<u8>,
}

/// The keystore: an ordered collection of (name, key record) entries with
/// distinct names, plus its persistence mode.
pub struct KeyStore {
    pub(crate) entries: Vec<(Vec<u8>, KeyInfo)>,
    pub(crate) encryption: Option<EncryptionContext>,
}

impl KeyStore {
    /// The entries as the specification sees them, in storage order.
    pub closed spec fn entry_views(&self) -> Seq<EntryView> {
        pair_views(self.entries@)
    }

    /// The storage names, in iteration order.
    pub open spec fn names(&self) -> Seq<Seq<u8>> {
        names_of(self.entry_views())
    }

    /// The persistence mode.
    pub closed spec fn persistence(&self) -> PersistenceView {
        match self.encryption {
            None => PersistenceView::Ephemeral,
            Some(EncryptionContext { passphrase, salt }) => PersistenceView::Encrypted {
                passphrase: passphrase@,
                salt: salt@,
            },
        }
    }

    /// Well-formed: names are pairwise distinct, and an encrypted store
    /// carries a 16-byte salt.
    pub open spec fn wf(&self) -> bool {
        &&& distinct_names(self.entry_views())
        &&& match self.persistence() {
            PersistenceView::Ephemeral => true,
            PersistenceView::Encrypted { passphrase, salt } => salt.len() == 16,
        }
    }

    /// Create a store. A `Memory` store is empty and ephemeral; an
    /// `Encrypted` store is empty and remembers its passphrase together
    /// with a fresh random salt.
    pub fn new(config: KeyStoreConfig) -> (r: Result<KeyStore, Error>)
        ensures
            r is Ok,
            r matches Ok(ks) ==> {
                &&& ks.wf()
                &&& ks@ == Map::<Seq<u8>, KeyInfoView>::empty()
                &&& ks.names() == Seq::<Seq<u8>>::empty()
                &&& match config {
                    KeyStoreConfig::Memory => ks.persistence() == PersistenceView::Ephemeral,
                    KeyStoreConfig::Encrypted { passphrase } => ks.persistence() matches
                        PersistenceView::Encrypted { passphrase: p, salt } && p == passphrase@
                        && salt.len() == 16,
                }
            },
    {
        let encryption = match config {
            KeyStoreConfig::Memory => None,
            KeyStoreConfig::Encrypted { passphrase } => Some(
                EncryptionContext { passphrase, salt: crate::crypto::random_bytes(16) },
            ),
        };
        let ks = KeyStore { entries: Vec::new(), encryption };
        proof {
            assert(ks.entry_views() =~= Seq::<EntryView>::empty());
            assert(ks.names() =~= Seq::<Seq<u8>>::empty());
        }
        Ok(ks)
    }

    /// The index of the entry carrying `name`, if any.
    fn find_index(&self, name: &Vec<u8>) -> (r: Option<usize>)
        ensures
            match r {
                Some(i) => i < self.entry_views().len() && self.entry_views()[i as int].0 == name@,
                None => forall|i: int|
                    0 <= i < self.entry_views().len() ==> self.entry_views()[i].0 != name@,
            },
    {
        let mut i: usize = 0;
        while i < self.entries.len()
            invariant
                0 <= i <= self.entries@.len(),
                self.entry_views().len() == self.entries@.len(),
                forall|j: int| 0 <= j < i ==> self.entry_views()[j].0 != name@,
                forall|j: int|
                    0 <= j < self.entries@.len() ==> self.entry_views()[j].0 == self.entries@[j].0@,
            decreases self.entries@.len() - i,
        {
            if bytes_eq(&self.entries[i].0, name) {
                return Some(i);
            }
            i += 1;
        }
        None
    }

    /// Whether an entry exists under `name`.
    pub fn contains(&self, name: &Vec<u8>) -> (r: bool)
        requires
            self.wf(),
        ensures
            r == self@.contains_key(name@),
    {
        proof {
            lemma_entries_map_domain(self.entry_views(), name@);
        }
        match self.find_index(name) {
            Some(_) => true,
            None => false,
        }
    }

    /// Look up the record under `name`; fails `NotFound` if absent.
    pub fn get(&self, name: &Vec<u8>) -> (r: Result<KeyInfo, Error>)
        requires
            self.wf(),
        ensures
            match r {
                Ok(info) => self@.contains_key(name@) && info@ == self@[name@],
                Err(e) => e == Error::NotFound && !self@.contains_key(name@),
            },
    {
        proof {
            lemma_entries_map_domain(self.entry_views(), name@);
        }
        match self.find_index(name) {
            Some(i) => {
                proof {
                    lemma_entries_map_index(self.entry_views(), i as int);
                }
                Ok(self.entries[i].1.duplicate())
            },
            None => Err(Error::NotFound),
        }
    }

    /// Register `info` under `name`; refuses to overwrite an existing entry
    /// with `KeyExists`, leaving the store unchanged.
    pub fn put(&mut self, name: &Vec<u8>, info: KeyInfo) -> (r: Result<(), Error>)
        requires
            old(self).wf(),
        ensures
            final(self).wf(),
            final(self).persistence() == old(self).persistence(),
            match r {
                Ok(()) => {
                    &&& !old(self)@.contains_key(name@)
                    &&& final(self)@ == old(self)@.insert(name@, info@)
                    &&& final(self).names() == old(self).names().push(name@)
                },
                Err(e) => {
                    &&& e == Error::KeyExists
                    &&& old(self)@.contains_key(name@)
                    &&& final(self)@ == old(self)@
                    &&& final(self).names() == old(self).names()
                },
            },
    {
        proof {
            lemma_entries_map_domain(self.entry_views(), name@);
        }
        match self.find_index(name) {
            Some(_) => Err(Error::KeyExists),
            None => {
                let ghost pre = self.entry_views();
                self.entries.push((copy_bytes(name), info));
                proof {
                    assert(self.entry_views() =~= pre.push((name@, info@)));
                    assert(self.entry_views().drop_last() =~= pre);
                    assert(self.names() =~= names_of(pre).push(name@));
                }
                Ok(())
            },
        }
    }

    /// Remove and return the record under `name`; fails `NotFound` if
    /// absent, leaving the store unchanged.
    pub fn remove(&mut self, name: &Vec<u8>) -> (r: Result<KeyInfo, Error>)
        requires
            old(self).wf(),
        ensures
            final(self).wf(),
            final(self).persistence() == old(self).persistence(),
            match r {
                Ok(info) => {
                    &&& old(self)@.contains_key(name@)
                    &&& info@ == old(self)@[name@]
                    &&& final(self)@ == old(self)@.remove(name@)
                    &&& exists|i: int|
                        {
                            &&& 0 <= i < old(self).names().len()
                            &&& old(self).names()[i] == name@
                            &&& final(self).names() == old(self).names().remove(i)
                        }
                },
                Err(e) => {
                    &&& e == Error::NotFound
                    &&& !old(self)@.contains_key(name@)
                    &&& final(self)@ == old(self)@
                    &&& final(self).names() == old(self).names()
                },
            },
    {
        proof {
            lemma_entries_map_domain(self.entry_views(), name@);
        }
        match self.find_index(name) {
            Some(i) => {
                let ghost pre = self.entry_views();
                proof {
                    lemma_entries_map_index(pre, i as int);
                    lemma_entries_map_remove(pre, i as int);
                }
                let (_, info) = self.entries.remove(i);
                proof {
                    assert(self.entry_views() =~= pre.remove(i as int));
                    assert(self.names() =~= names_of(pre).remove(i as int));
                    assert(old(self).names()[i as int] == name@);
                }
                Ok(info)
            },
            None => Err(Error::NotFound),
        }
    }

    /// A snapshot of every storage name, in iteration order.
    pub fn list(&self) -> (r: Vec<Vec<u8>>)
        requires
            self.wf(),
        ensures
            r@.map_values(|n: Vec<u8>| n@) == self.names(),
    {
        let mut out: Vec<Vec<u8>> = Vec::new();
        let mut i: usize = 0;
        while i < self.entries.len()
            invariant
                0 <= i <= self.entries@.len(),
                self.entry_views().len() == self.entries@.len(),
                forall|j: int|
                    0 <= j < self.entries@.len() ==> self.entry_views()[j].0 == self.entries@[j].0@,
                out@.len() == i,
                forall|j: int| 0 <= j < i ==> out@[j]@ == self.names()[j],
            decreases self.entries@.len() - i,
        {
            out.push(copy_bytes(&self.entries[i].0));
            proof {
                assert(self.names()[i as int] == self.entry_views()[i as int].0);
            }
            i += 1;
        }
        proof {
            assert forall|j: int| 0 <= j < out@.len() implies out@.map_values(|n: Vec<u8>| n@)[j]
                == self.names()[j] by {
                assert(out@[j]@ == self.names()[j]);
            }
            assert(out@.map_values(|n: Vec<u8>| n@) =~= self.names());
        }
        out
    }
    /// The plaintext image of the entries; fails `StorageIOError` exactly
    /// when some entry exceeds the record format's length fields.
    #[verifier::rlimit(100)]
    fn encode_entries(&self) -> (r: Result<Vec<u8>, Error>)
        ensures
            match r {
                Ok(b) => encodable(self.entry_views()) && b@ == encoded_entries(
                    self.entry_views(),
                ),
                Err(e) => e == Error::StorageIOError && !encodable(self.entry_views()),
            },
    {
        let ghost views = self.entry_views();
        let mut out: Vec<u8> = Vec::new();
        let mut i: usize = 0;
        proof {
            assert(encoded_entries(views.take(0)) =~= Seq::<u8>::empty());
        }
        while i < self.entries.len()
            invariant
                0 <= i <= self.entries@.len(),
                views == self.entry_views(),
                views.len() == self.entries@.len(),
                forall|j: int| 0 <= j < views.len() ==> #[trigger] views[j] == (self.entries@[j].0@, self.entries@[j].1@),
                forall|j: int| 0 <= j < i ==> encodable_entry(#[trigger] views[j]),
                out@ == encoded_entries(views.take(i as int)),
            decreases self.entries@.len() - i,
        {
            let name_len = self.entries[i].0.len();
            let key_len = self.entries[i].1.private_key.len();
            if name_len > 65535 || key_len > 65535 {
                proof {
                    assert(!encodable_entry(views[i as int]));
                }
                return Err(Error::StorageIOError);
            }
            let ghost before = out@;
            out.push((name_len % 256) as u8);
            out.push(((name_len / 256) % 256) as u8);
            append_bytes(&mut out, &self.entries[i].0);
            out.push(match self.entries[i].1.scheme {
                SignatureScheme::Secp256k1 => 1,
                SignatureScheme::Bls => 3,
            });
            out.push((key_len % 256) as u8);
            out.push(((key_len / 256) % 256) as u8);
            append_bytes(&mut out, &self.entries[i].1.private_key);
            proof {
                let e = views[i as int];
                assert(le2(e.0.len()) =~= seq![
                    (name_len % 256) as u8,
                    ((name_len / 256) % 256) as u8,
                ]);
                assert(le2(e.1.private_key.len()) =~= seq![
                    (key_len % 256) as u8,
                    ((key_len / 256) % 256) as u8,
                ]);
                assert(out@ =~= before + encoded_entry(e));
                lemma_encoded_entries_take_step(views, i as int);
            }
            i += 1;
        }
        proof {
            assert(views.take(views.len() as int) =~= views);
        }
        Ok(out)
    }

    /// Produce the sealed (encrypted-at-rest) image of this store: salt,
    /// fresh nonce, and the authenticated ciphertext of the plaintext image
    /// under the passphrase-derived key. Only an encrypted store has one;
    /// the image reloads to exactly this store's entries under the same
    /// passphrase.
    pub fn sealed(&self) -> (r: Result<Vec<u8>, Error>)
        requires
            self.wf(),
        ensures
            self.persistence() is Ephemeral ==> r == Err::<Vec<u8>, Error>(Error::StorageIOError),
            self.persistence() matches PersistenceView::Encrypted { passphrase, salt } ==> match r {
                Ok(blob) => {
                    &&& encodable(self.entry_views())
                    &&& blob@.take(16) == salt
                    &&& unsealed_plain(blob@, passphrase) == Some(
                        encoded_entries(self.entry_views()),
                    )
                },
                Err(e) => e == Error::StorageIOError && (!encodable(self.entry_views())
                    || encoded_entries(self.entry_views()).len() > 0xF_FFFF_FFE0),
            },
    {
        let ctx = match &self.encryption {
            None => {
                return Err(Error::StorageIOError);
            },
            Some(c) => c,
        };
        let plain = match self.encode_entries() {
            Ok(p) => p,
            Err(e) => {
                return Err(e);
            },
        };
        let key = derive_key(ctx.passphrase.as_slice(), ctx.salt.as_slice(), KDF_ROUNDS);
        let nonce = random_bytes(12);
        let ct = match aead_seal_bytes(key.as_slice(), nonce.as_slice(), plain.as_slice()) {
            None => {
                return Err(Error::StorageIOError);
            },
            Some(ct) => ct,
        };
        let mut blob = copy_bytes(&ctx.salt);
        append_bytes(&mut blob, &nonce);
        append_bytes(&mut blob, &ct);
        proof {
            assert(blob@.take(16) =~= ctx.salt@);
            assert(blob@.subrange(16, 28) =~= nonce@);
            assert(blob@.skip(28) =~= ct@);
        }
        Ok(blob)
    }

    /// Reload a store from its sealed image and passphrase. Fails
    /// `DecryptionFailed` when the envelope is malformed or authentication
    /// fails (a wrong passphrase or tampering), and `CorruptStore` when the
    /// decrypted plaintext is structurally invalid — never yielding partial
    /// data; otherwise reproduces exactly the sealed entries.
    #[verifier::loop_isolation(false)]
    pub fn from_sealed(blob: &Vec<u8>, passphrase: Vec<u8>) -> (r: Result<KeyStore, Error>)
        ensures
            match unsealed_plain(blob@, passphrase@) {
                None => r == Err::<KeyStore, Error>(Error::DecryptionFailed),
                Some(p) => match decoded_entries(p) {
                    None => r == Err::<KeyStore, Error>(Error::CorruptStore),
                    Some(entries) => if !distinct_names(entries) {
                        r == Err::<KeyStore, Error>(Error::CorruptStore)
                    } else {
                        r matches Ok(ks) && {
                            &&& ks.wf()
                            &&& ks@ == entries_map(entries)
                            &&& ks.names() == names_of(entries)
                            &&& ks.persistence() == (PersistenceView::Encrypted {
                                passphrase: passphrase@,
                                salt: blob@.take(16),
                            })
                        }
                    },
                },
            },
    {
        let ghost pass = passphrase@;
        if blob.len() < 28 {
            return Err(Error::DecryptionFailed);
        }
        let salt = copy_range(blob, 0, 16);
        let nonce = copy_range(blob, 16, 28);
        let ct = copy_range(blob, 28, blob.len());
        proof {
            assert(salt@ =~= blob@.take(16));
        }
        let key = derive_key(passphrase.as_slice(), salt.as_slice(), KDF_ROUNDS);
        let plain = match aead_open_bytes(key.as_slice(), nonce.as_slice(), ct.as_slice()) {
            None => {
                return Err(Error::DecryptionFailed);
            },
            Some(p) => p,
        };
        let parsed = match decode_entries(&plain) {
            Ok(v) => v,
            Err(e) => {
                return Err(e);
            },
        };
        let ghost entries = pair_views(parsed@);
        let mut ks = KeyStore { entries: Vec::new(), encryption: Some(EncryptionContext { passphrase, salt }) };
        proof {
            assert(ks.entry_views() =~= Seq::<EntryView>::empty());
            assert(ks.names() =~= Seq::<Seq<u8>>::empty());
            assert(names_of(entries.take(0)) =~= Seq::<Seq<u8>>::empty());
        }
        let mut j: usize = 0;
        while j < parsed.len()
            invariant
                0 <= j <= parsed@.len(),
                ks.wf(),
                ks.names() == names_of(entries.take(j as int)),
                ks@ == entries_map(entries.take(j as int)),
                ks.persistence() == (PersistenceView::Encrypted {
                    passphrase: pass,
                    salt: blob@.take(16),
                }),
            decreases parsed@.len() - j,
        {
            let info = parsed[j].1.duplicate();
            proof {
                assert(entries[j as int] == (parsed@[j as int].0@, parsed@[j as int].1@));
            }
            match ks.put(&parsed[j].0, info) {
                Ok(()) => {
                    proof {
                        assert(names_of(entries.take(j + 1 as int)) =~= names_of(
                            entries.take(j as int),
                        ).push(entries[j as int].0));
                        assert(entries.take(j + 1 as int).drop_last() =~= entries.take(j as int));
                        assert(entries.take(j + 1 as int).last() == entries[j as int]);
                    }
                },
                Err(_) => {
                    proof {
                        lemma_entries_map_domain(entries.take(j as int), entries[j as int].0);
                        let k = choose|k: int|
                            0 <= k < entries.take(j as int).len() && entries.take(j as int)[k].0
                                == entries[j as int].0;
                        assert(entries[k] == entries.take(j as int)[k]);
                        assert(entries[k].0 == entries[j as int].0 && 0 <= k < j);
                        assert(!distinct_names(entries));
                    }
                    return Err(Error::CorruptStore);
                },
            }
            j += 1;
        }
        proof {
            assert(entries.take(entries.len() as int) =~= entries);
            assert forall|x: int, y: int| 0 <= x < y < entries.len() implies entries[x].0
                != entries[y].0 by {
                assert(ks.names()[x] == ks.entry_views()[x].0);
                assert(ks.names()[y] == ks.entry_views()[y].0);
                assert(names_of(entries)[x] == entries[x].0);
                assert(names_of(entries)[y] == entries[y].0);
            }
            assert(distinct_names(entries));
        }
        Ok(ks)
    }
}

/// Parse the plaintext image back into owned entries; fails `CorruptStore`
/// exactly when the bytes are structurally invalid.
#[verifier::rlimit(100)]
fn decode_entries(plain: &Vec<u8>) -> (r: Result<Vec<(Vec<u8>, KeyInfo)>, Error>)
    ensures
        match r {
            Ok(v) => decoded_entries(plain@) == Some(pair_views(v@)),
            Err(e) => e == Error::CorruptStore && decoded_entries(plain@) is None,
        },
{
    let mut out: Vec<(Vec<u8>, KeyInfo)> = Vec::new();
    let mut pos: usize = 0;
    proof {
        assert(plain@.skip(0) =~= plain@);
        assert(pair_views(out@) =~= Seq::<EntryView>::empty());
        if let Some(rest) = decoded_entries(plain@) {
            assert(pair_views(out@) + rest =~= rest);
        }
    }
    while pos < plain.len()
        invariant
            0 <= pos <= plain@.len(),
            match decoded_entries(plain@.skip(pos as int)) {
                Some(rest) => decoded_entries(plain@) == Some(pair_views(out@) + rest),
                None => decoded_entries(plain@) is None,
            },
        decreases plain@.len() - pos,
    {
        let ghost tail = plain@.skip(pos as int);
        let remaining = plain.len() - pos;
        proof {
            assert(tail.len() == remaining);
        }
        if remaining < 2 {
            return Err(Error::CorruptStore);
        }
        let nlen: usize = plain[pos] as usize + 256 * (plain[pos + 1] as usize);
        proof {
            assert(tail.take(2) =~= seq![plain@[pos as int], plain@[pos as int + 1]]);
            assert(le2_value(tail.take(2)) == nlen);
        }
        if remaining < 5 + nlen {
            return Err(Error::CorruptStore);
        }
        let name = copy_range(plain, pos + 2, pos + 2 + nlen);
        proof {
            assert(name@ =~= tail.subrange(2, 2 + nlen as int));
        }
        let tag = plain[pos + 2 + nlen];
        proof {
            assert(tail[2 + nlen as int] == plain@[pos as int + 2 + nlen as int]);
        }
        let scheme = if tag == 1 {
            SignatureScheme::Secp256k1
        } else if tag == 3 {
            SignatureScheme::Bls
        } else {
            return Err(Error::CorruptStore);
        };
        let klen: usize = plain[pos + 3 + nlen] as usize + 256 * (plain[pos + 4 + nlen] as usize);
        proof {
            assert(tail.subrange(3 + nlen as int, 5 + nlen as int) =~= seq![
                plain@[pos as int + 3 + nlen as int],
                plain@[pos as int + 4 + nlen as int],
            ]);
            assert(le2_value(tail.subrange(3 + nlen as int, 5 + nlen as int)) == klen);
        }
        let record_len = 5 + nlen + klen;
        if remaining < record_len {
            return Err(Error::CorruptStore);
        }
        let key_bytes = copy_range(plain, pos + 5 + nlen, pos + record_len);
        proof {
            assert(key_bytes@ =~= tail.subrange(5 + nlen as int, 5 + nlen as int + klen as int));
        }
        let ghost before = out@;
        out.push((name, KeyInfo::new(scheme, key_bytes)));
        proof {
            let e = (plain@.subrange(pos as int + 2, pos as int + 2 + nlen as int), KeyInfoView {
                scheme,
                private_key: tail.subrange(5 + nlen as int, 5 + nlen as int + klen as int),
            });
            assert(tail.skip(5 + nlen as int + klen as int) =~= plain@.skip(
                pos as int + record_len as int,
            ));
            assert(pair_views(out@) =~= pair_views(before).push(e));
            if let Some(rest) = decoded_entries(plain@.skip(pos as int + record_len as int)) {
                assert(decoded_entries(tail) == Some(seq![e] + rest));
                assert(pair_views(before) + (seq![e] + rest) =~= pair_views(out@) + rest);
            }
        }
        pos = pos + record_len;
    }
    proof {
        assert(plain@.skip(plain@.len() as int) =~= Seq::<u8>::empty());
        if let Some(rest) = decoded_entries(plain@.skip(plain@.len() as int)) {
            assert(pair_views(out@) + rest =~= pair_views(out@));
        }
    }
    Ok(out)
}

impl View for KeyStore {
    type V = Map<Seq<u8>, KeyInfoView>;

    /// The mapping from storage names to key records.
    closed spec fn view(&self) -> Map<Seq<u8>, KeyInfoView> {
        entries_map(self.entry_views())
    }
}

} // verus!
