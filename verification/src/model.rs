//! Key material value types: signature scheme tags, private key records,
//! derived addresses, runtime key pairings and signatures.

use vstd::prelude::*;

verus! {

/// The supported signing algorithms. Immutable once chosen for a key.
#[derive(Clone, Copy, Debug, PartialEq, Eq, Structural, Hash)]
pub enum SignatureScheme {
    Secp256k1,
    Bls,
}

/// Mathematical view of a [`KeyInfo`].
pub struct KeyInfoView {
    pub scheme: SignatureScheme,
    pub private_key: Seq<u8>,
}

/// The canonical, persistable representation of a secret: a scheme tag and
/// the private key bytes for that scheme.
#[derive(Clone, Debug)]
pub struct KeyInfo {
    pub scheme: SignatureScheme,
    pub private_key: Vec<u8>,
}

impl View for KeyInfo {
    type V = KeyInfoView;

    open spec fn view(&self) -> KeyInfoView {
        KeyInfoView { scheme: self.scheme, private_key: self.private_key@ }
    }
}

impl KeyInfo {
    pub fn new(scheme: SignatureScheme, private_key: Vec<u8>) -> (r: KeyInfo)
        ensures
            r@ == (KeyInfoView { scheme, private_key: private_key@ }),
    {
        KeyInfo { scheme, private_key }
    }

    /// The scheme this key signs under.
    pub fn key_type(&self) -> (r: SignatureScheme)
        ensures
            r == self@.scheme,
    {
        self.scheme
    }

    /// The raw private key bytes.
    pub fn private_key(&self) -> (r: &Vec<u8>)
        ensures
            r@ == self@.private_key,
    {
        &self.private_key
    }

    /// An owned copy of this record.
    pub fn duplicate(&self) -> (r: KeyInfo)
        ensures
            r@ == self@,
    {
        KeyInfo { scheme: self.scheme, private_key: copy_bytes(&self.private_key) }
    }

    /// Value equality: same scheme and byte-identical private key.
    pub fn same_secret(&self, other: &KeyInfo) -> (r: bool)
        ensures
            r == (self@ == other@),
    {
        let r = self.scheme == other.scheme && bytes_eq(&self.private_key, &other.private_key);
        proof {
            if r {
                assert(self@ == other@);
            }
        }
        r
    }
}

/// Mathematical view of an [`Address`].
pub struct AddressView {
    pub scheme: SignatureScheme,
    pub payload: Seq<u8>,
}

/// A value deterministically derived from a scheme and its public key bytes.
/// Used as a lookup and display key; the payload is the serialized public key.
#[derive(Clone, Debug)]
pub struct Address {
    pub scheme: SignatureScheme,
    pub payload: Vec<u8>,
}

impl View for Address {
    type V = AddressView;

    open spec fn view(&self) -> AddressView {
        AddressView { scheme: self.scheme, payload: self.payload@ }
    }
}

impl Address {
    pub fn new(scheme: SignatureScheme, payload: Vec<u8>) -> (r: Address)
        ensures
            r@ == (AddressView { scheme, payload: payload@ }),
    {
        Address { scheme, payload }
    }

    /// An owned copy of this address.
    pub fn duplicate(&self) -> (r: Address)
        ensures
            r@ == self@,
    {
        Address { scheme: self.scheme, payload: copy_bytes(&self.payload) }
    }

    /// Value equality of addresses.
    pub fn same_address(&self, other: &Address) -> (r: bool)
        ensures
            r == (self@ == other@),
    {
        let r = self.scheme == other.scheme && bytes_eq(&self.payload, &other.payload);
        proof {
            if r {
                assert(self@ == other@);
            }
        }
        r
    }
}

/// Mathematical view of a [`Key`].
pub struct KeyView {
    pub address: AddressView,
    pub key_info: KeyInfoView,
}

/// A runtime-only pairing of an address with its key record, produced by
/// generation or derivation; never persisted as a unit.
#[derive(Clone, Debug)]
pub struct Key {
    pub address: Address,
    pub key_info: KeyInfo,
}

impl View for Key {
    type V = KeyView;

    open spec fn view(&self) -> KeyView {
        KeyView { address: self.address@, key_info: self.key_info@ }
    }
}

/// Mathematical view of a [`Signature`].
pub struct SignatureView {
    pub scheme: SignatureScheme,
    pub bytes: Seq<u8>,
}

/// A signature over a message; carries its scheme so it can self-describe
/// for verification.
#[derive(Clone, Debug)]
pub struct Signature {
    pub scheme: SignatureScheme,
    pub bytes: Vec<u8>,
}

impl View for Signature {
    type V = SignatureView;

    open spec fn view(&self) -> SignatureView {
        SignatureView { scheme: self.scheme, bytes: self.bytes@ }
    }
}

/// Byte-wise equality of two vectors.
pub fn bytes_eq(a: &Vec<u8>, b: &Vec<u8>) -> (r: bool)
    ensures
        r == (a@ == b@),
{
    if a.len() != b.len() {
        return false;
    }
    let mut i: usize = 0;
    while i < a.len()
        invariant
            0 <= i <= a@.len(),
            a@.len() == b@.len(),
            forall|j: int| 0 <= j < i ==> a@[j] == b@[j],
        decreases a@.len() - i,
    {
        if a[i] != b[i] {
            return false;
        }
        i += 1;
    }
    proof {
        assert(a@ =~= b@);
    }
    true
}

/// Whether every byte of a sequence is zero.
pub open spec fn all_zero(s: Seq<u8>) -> bool {
    forall|i: int| 0 <= i < s.len() ==> s[i] == 0
}

/// Whether every byte of a vector is zero.
pub fn is_all_zero(v: &Vec<u8>) -> (r: bool)
    ensures
        r == all_zero(v@),
{
    let mut i: usize = 0;
    while i < v.len()
        invariant
            0 <= i <= v@.len(),
            forall|j: int| 0 <= j < i ==> v@[j] == 0,
        decreases v@.len() - i,
    {
        if v[i] != 0 {
            return false;
        }
        i += 1;
    }
    true
}

/// An owned copy of the range `[from, to)` of a byte vector.
pub fn copy_range(src: &Vec<u8>, from: usize, to: usize) -> (r: Vec<u8>)
    requires
        from <= to <= src@.len(),
    ensures
        r@ == src@.subrange(from as int, to as int),
{
    let mut out: Vec<u8> = Vec::new();
    let mut i: usize = from;
    while i < to
        invariant
            from <= i <= to <= src@.len(),
            out@ == src@.subrange(from as int, i as int),
        decreases to - i,
    {
        out.push(src[i]);
        proof {
            assert(out@ =~= src@.subrange(from as int, i + 1 as int));
        }
        i += 1;
    }
    out
}

/// Append the bytes of `src` to `dst`.
pub fn append_bytes(dst: &mut Vec<u8>, src: &Vec<u8>)
    ensures
        final(dst)@ == old(dst)@ + src@,
{
    let mut i: usize = 0;
    proof {
        assert(dst@ =~= dst@ + src@.take(0));
    }
    while i < src.len()
        invariant
            0 <= i <= src@.len(),
            dst@ == old(dst)@ + src@.take(i as int),
        decreases src@.len() - i,
    {
        dst.push(src[i]);
        proof {
            assert(dst@ =~= old(dst)@ + src@.take(i + 1 as int));
        }
        i += 1;
    }
    proof {
        assert(old(dst)@ + src@.take(src@.len() as int) =~= old(dst)@ + src@);
    }
}

/// An owned copy of a byte vector.
pub fn copy_bytes(src: &Vec<u8>) -> (r: Vec<u8>)
    ensures
        r@ == src@,
{
    let mut out: Vec<u8> = Vec::new();
    let mut i: usize = 0;
    while i < src.len()
        invariant
            0 <= i <= src@.len(),
            out@ == src@.take(i as int),
        decreases src@.len() - i,
    {
        out.push(src[i]);
        proof {
            assert(out@ =~= src@.take(i + 1 as int));
        }
        i += 1;
    }
    proof {
        assert(src@.take(src@.len() as int) =~= src@);
    }
    out
}

} // verus!
