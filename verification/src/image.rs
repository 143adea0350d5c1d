//! The persisted image format of the keystore.
//!
//! Plaintext: a flat sequence of records, one per entry — a two-byte
//! little-endian name length, the name, one scheme byte, a two-byte
//! little-endian key length, the key bytes. Encoding and decoding
//! round-trip. The sealed image is a 16-byte salt, a 12-byte nonce, and the
//! authenticated ciphertext of the plaintext under a passphrase-derived key.

use vstd::prelude::*;

use crate::crypto::{aead_opened, kdf_key_of};
use crate::keystore::EntryView;
use crate::model::{KeyInfoView, SignatureScheme};

verus! {

/// Key-derivation work factor for the sealed image.
pub const KDF_ROUNDS: u32 = 4096;

/// Two-byte little-endian encoding of a length.
pub open spec fn le2(n: nat) -> Seq<u8>
    recommends
        n < 65536,
{
    seq![(n % 256) as u8, ((n / 256) % 256) as u8]
}

/// The length two little-endian bytes stand for.
pub open spec fn le2_value(s: Seq<u8>) -> nat
    recommends
        s.len() == 2,
{
    s[0] as nat + 256 * (s[1] as nat)
}

pub proof fn lemma_le2_round_trip(n: nat)
    requires
        n < 65536,
    ensures
        le2_value(le2(n)) == n,
{
    assert(n % 256 + 256 * ((n / 256) % 256) == n) by (nonlinear_arith)
        requires
            n < 65536,
    ;
}

/// The byte that tags a scheme inside a record.
pub open spec fn scheme_byte(s: SignatureScheme) -> u8 {
    match s {
        SignatureScheme::Secp256k1 => 1,
        SignatureScheme::Bls => 3,
    }
}

/// The scheme a record byte stands for, if any.
pub open spec fn byte_scheme(b: u8) -> Option<SignatureScheme> {
    if b == 1 {
        Some(SignatureScheme::Secp256k1)
    } else if b == 3 {
        Some(SignatureScheme::Bls)
    } else {
        None
    }
}

/// Whether an entry fits the record format's length fields.
pub open spec fn encodable_entry(e: EntryView) -> bool {
    e.0.len() < 65536 && e.1.private_key.len() < 65536
}

/// Whether every entry fits the record format.
pub open spec fn encodable(s: Seq<EntryView>) -> bool {
    forall|i: int| 0 <= i < s.len() ==> encodable_entry(#[trigger] s[i])
}

/// The record that stores one entry.
pub open spec fn encoded_entry(e: EntryView) -> Seq<u8> {
    le2(e.0.len()) + e.0 + seq![scheme_byte(e.1.scheme)] + le2(e.1.private_key.len())
        + e.1.private_key
}

/// The plaintext that stores a sequence of entries.
pub open spec fn encoded_entries(s: Seq<EntryView>) -> Seq<u8>
    decreases s.len(),
{
    if s.len() == 0 {
        Seq::empty()
    } else {
        encoded_entry(s[0]) + encoded_entries(s.skip(1))
    }
}

/// The entries a plaintext stands for, if it is structurally valid.
pub open spec fn decoded_entries(b: Seq<u8>) -> Option<Seq<EntryView>>
    decreases b.len(),
{
    if b.len() == 0 {
        Some(Seq::empty())
    } else if b.len() < 2 {
        None
    } else {
        let nlen = le2_value(b.take(2)) as int;
        if b.len() < 5 + nlen {
            None
        } else {
            let name = b.subrange(2, 2 + nlen);
            match byte_scheme(b[2 + nlen]) {
                None => None,
                Some(scheme) => {
                    let klen = le2_value(b.subrange(3 + nlen, 5 + nlen)) as int;
                    if b.len() < 5 + nlen + klen {
                        None
                    } else {
                        let key = b.subrange(5 + nlen, 5 + nlen + klen);
                        match decoded_entries(b.skip(5 + nlen + klen)) {
                            None => None,
                            Some(rest) => Some(
                                seq![(name, KeyInfoView { scheme, private_key: key })] + rest,
                            ),
                        }
                    }
                },
            }
        }
    }
}

/// Appending one entry appends its record.
pub proof fn lemma_encoded_entries_take_step(s: Seq<EntryView>, i: int)
    requires
        0 <= i < s.len(),
    ensures
        encoded_entries(s.take(i + 1)) == encoded_entries(s.take(i)) + encoded_entry(s[i]),
    decreases i,
{
    if i == 0 {
        assert(s.take(1)[0] == s[0]);
        assert(s.take(1).skip(1) =~= Seq::<EntryView>::empty());
        assert(encoded_entries(s.take(0)) =~= Seq::<u8>::empty());
        assert(encoded_entry(s[0]) + Seq::<u8>::empty() =~= encoded_entry(s[0]));
        assert(encoded_entries(Seq::<EntryView>::empty()) == Seq::<u8>::empty());
        assert(s.take(1).len() == 1);
        assert(encoded_entries(s.take(1)) == encoded_entry(s.take(1)[0]) + encoded_entries(
            s.take(1).skip(1),
        ));
        assert(encoded_entries(s.take(1)) =~= encoded_entry(s[0]));
        assert(encoded_entries(s.take(0)) + encoded_entry(s[0]) =~= encoded_entry(s[0]));
    } else {
        lemma_encoded_entries_take_step(s.skip(1), i - 1);
        assert(s.take(i + 1)[0] == s[0]);
        assert(s.take(i)[0] == s[0]);
        assert(s.take(i + 1).skip(1) =~= s.skip(1).take(i));
        assert(s.take(i).skip(1) =~= s.skip(1).take(i - 1));
        assert(s.skip(1)[i - 1] == s[i]);
        assert(encoded_entries(s.take(i + 1)) =~= encoded_entries(s.take(i)) + encoded_entry(
            s[i],
        ));
    }
}

/// Decoding a record followed by more bytes peels off exactly that record.
#[verifier::rlimit(100)]
pub proof fn lemma_decode_cons(e: EntryView, rest: Seq<u8>)
    requires
        encodable_entry(e),
    ensures
        decoded_entries(encoded_entry(e) + rest) == match decoded_entries(rest) {
            Some(tail) => Some(seq![e] + tail),
            None => None::<Seq<EntryView>>,
        },
{
    let b = encoded_entry(e) + rest;
    let nlen = e.0.len() as int;
    let klen = e.1.private_key.len() as int;
    lemma_le2_round_trip(e.0.len());
    lemma_le2_round_trip(e.1.private_key.len());
    assert(b.len() == 5 + nlen + klen + rest.len());
    assert(b.take(2) =~= le2(e.0.len()));
    assert(b.subrange(2, 2 + nlen) =~= e.0);
    assert(b[2 + nlen] == scheme_byte(e.1.scheme));
    assert(b.subrange(3 + nlen, 5 + nlen) =~= le2(e.1.private_key.len()));
    assert(b.subrange(5 + nlen, 5 + nlen + klen) =~= e.1.private_key);
    assert(b.skip(5 + nlen + klen) =~= rest);
    assert(byte_scheme(scheme_byte(e.1.scheme)) == Some(e.1.scheme));
    if let Some(tail) = decoded_entries(rest) {
        assert(decoded_entries(b) == Some(
            seq![(e.0, KeyInfoView { scheme: e.1.scheme, private_key: e.1.private_key })] + tail,
        ));
        assert((e.0, KeyInfoView { scheme: e.1.scheme, private_key: e.1.private_key }) == e);
    }
}

/// Encoding then decoding reproduces the entries exactly.
pub proof fn lemma_codec_round_trip(s: Seq<EntryView>)
    requires
        encodable(s),
    ensures
        decoded_entries(encoded_entries(s)) == Some(s),
    decreases s.len(),
{
    if s.len() == 0 {
        assert(encoded_entries(s) =~= Seq::<u8>::empty());
    } else {
        assert(encodable(s.skip(1)));
        lemma_codec_round_trip(s.skip(1));
        lemma_decode_cons(s[0], encoded_entries(s.skip(1)));
        assert(seq![s[0]] + s.skip(1) =~= s);
    }
}

/// The persistent round trip: a sealed image whose plaintext is the
/// encoding of a store's entries decodes — under the passphrase it was
/// sealed with — back to exactly those entries, never to partial data.
/// Together with the contracts of sealing and loading, reloading a sealed
/// store reproduces the identical set of (name, key record) pairs.
pub proof fn lemma_sealed_image_reloads(
    entries: Seq<EntryView>,
    blob: Seq<u8>,
    passphrase: Seq<u8>,
)
    requires
        encodable(entries),
        unsealed_plain(blob, passphrase) == Some(encoded_entries(entries)),
    ensures
        match unsealed_plain(blob, passphrase) {
            Some(p) => decoded_entries(p) == Some(entries),
            None => false,
        },
{
    lemma_codec_round_trip(entries);
}

/// The plaintext a sealed image decrypts to under a passphrase, if its
/// envelope is well-formed and authentication succeeds: the leading 16
/// bytes are the salt, the next 12 the nonce, the rest the ciphertext.
pub open spec fn unsealed_plain(blob: Seq<u8>, passphrase: Seq<u8>) -> Option<Seq<u8>> {
    if blob.len() < 28 {
        None
    } else {
        aead_opened(
            kdf_key_of(passphrase, blob.take(16), KDF_ROUNDS),
            blob.subrange(16, 28),
            blob.skip(28),
        )
    }
}

} // verus!
