//! Canonical text encoding of addresses and the storage-name namespace.
//!
//! A storage name is either the sentinel `default` or `wallet-<encoded
//! address>`, where an address encodes as one scheme digit followed by the
//! lowercase hex of its payload. Encoding and decoding round-trip, which
//! makes the address-to-name mapping injective.

use vstd::prelude::*;

use crate::model::{AddressView, Address, SignatureScheme};

verus! {

/// ASCII hex digit (lowercase) for a nibble.
pub open spec fn hex_digit(n: u8) -> u8
    recommends
        n < 16,
{
    if n < 10 {
        (48 + n) as u8
    } else {
        (87 + n) as u8
    }
}

/// The nibble an ASCII hex digit stands for, if it is one.
pub open spec fn hex_value(c: u8) -> Option<u8> {
    if 48 <= c <= 57 {
        Some((c - 48) as u8)
    } else if 97 <= c <= 102 {
        Some((c - 87) as u8)
    } else {
        None
    }
}

/// Lowercase hex of a byte sequence: two digits per byte.
pub open spec fn hex_of(bs: Seq<u8>) -> Seq<u8>
    decreases bs.len(),
{
    if bs.len() == 0 {
        Seq::empty()
    } else {
        seq![hex_digit(bs[0] / 16), hex_digit(bs[0] % 16)] + hex_of(bs.skip(1))
    }
}

/// The bytes a hex string stands for, if it is well-formed.
pub open spec fn unhex_of(s: Seq<u8>) -> Option<Seq<u8>>
    decreases s.len(),
{
    if s.len() == 0 {
        Some(Seq::empty())
    } else if s.len() == 1 {
        None
    } else {
        match (hex_value(s[0]), hex_value(s[1])) {
            (Some(hi), Some(lo)) => match unhex_of(s.skip(2)) {
                Some(rest) => Some(seq![(hi * 16 + lo) as u8] + rest),
                None => None,
            },
            _ => None,
        }
    }
}

proof fn lemma_hex_digit_value(n: u8)
    requires
        n < 16,
    ensures
        hex_value(hex_digit(n)) == Some(n),
{
}

/// Hex encoding and decoding round-trip on every byte sequence.
pub proof fn lemma_hex_round_trip(bs: Seq<u8>)
    ensures
        unhex_of(hex_of(bs)) == Some(bs),
    decreases bs.len(),
{
    if bs.len() == 0 {
    } else {
        lemma_hex_round_trip(bs.skip(1));
        let h = hex_of(bs);
        lemma_hex_digit_value(bs[0] / 16);
        lemma_hex_digit_value(bs[0] % 16);
        assert(h.skip(2) =~= hex_of(bs.skip(1)));
        assert((bs[0] / 16) * 16 + bs[0] % 16 == bs[0]) by (nonlinear_arith);
        assert(seq![bs[0]] + bs.skip(1) =~= bs);
    }
}

/// Hex strings decode to at most one byte sequence, so `hex_of` is injective.
pub proof fn lemma_hex_injective(a: Seq<u8>, b: Seq<u8>)
    requires
        hex_of(a) == hex_of(b),
    ensures
        a == b,
{
    lemma_hex_round_trip(a);
    lemma_hex_round_trip(b);
}

/// The digit that tags a scheme inside an encoded address.
pub open spec fn scheme_tag(s: SignatureScheme) -> u8 {
    match s {
        SignatureScheme::Secp256k1 => 49,  // '1'
        SignatureScheme::Bls => 51,  // '3'
    }
}

/// Canonical text of an address: scheme digit, then hex of the payload.
pub open spec fn encoded_address(a: AddressView) -> Seq<u8> {
    seq![scheme_tag(a.scheme)] + hex_of(a.payload)
}

/// The bytes of the literal prefix `wallet-`.
pub open spec fn wallet_prefix() -> Seq<u8> {
    seq![119u8, 97u8, 108u8, 108u8, 101u8, 116u8, 45u8]
}

/// The bytes of the sentinel name `default`.
pub open spec fn default_name() -> Seq<u8> {
    seq![100u8, 101u8, 102u8, 97u8, 117u8, 108u8, 116u8]
}

/// The storage name that holds the key registered for an address.
pub open spec fn wallet_name_of(a: AddressView) -> Seq<u8> {
    wallet_prefix() + encoded_address(a)
}

/// Whether a storage name lies in the `wallet-` namespace.
pub open spec fn is_wallet_name(n: Seq<u8>) -> bool {
    n.len() > 7 && n.take(7) == wallet_prefix()
}

/// The address an encoded address stands for, if well-formed.
pub open spec fn decoded_address(s: Seq<u8>) -> Option<AddressView> {
    if s.len() >= 1 && (s[0] == 49 || s[0] == 51) {
        let scheme = if s[0] == 49 {
            SignatureScheme::Secp256k1
        } else {
            SignatureScheme::Bls
        };
        match unhex_of(s.skip(1)) {
            Some(payload) => Some(AddressView { scheme, payload }),
            None => None,
        }
    } else {
        None
    }
}

/// Address encoding and decoding round-trip, so distinct addresses have
/// distinct encodings and distinct wallet storage names.
pub proof fn lemma_address_round_trip(a: AddressView)
    ensures
        decoded_address(encoded_address(a)) == Some(a),
        is_wallet_name(wallet_name_of(a)),
        decoded_address(wallet_name_of(a).skip(7)) == Some(a),
{
    let e = encoded_address(a);
    lemma_hex_round_trip(a.payload);
    assert(e.skip(1) =~= hex_of(a.payload));
    assert(wallet_name_of(a).take(7) =~= wallet_prefix());
    assert(wallet_name_of(a).skip(7) =~= e);
}

/// A wallet storage name is never the `default` sentinel.
pub proof fn lemma_wallet_name_not_default(a: AddressView)
    ensures
        wallet_name_of(a) != default_name(),
{
    assert(wallet_name_of(a).len() >= 8);
}

/// Distinct addresses get distinct wallet storage names.
pub proof fn lemma_wallet_name_injective(a: AddressView, b: AddressView)
    requires
        wallet_name_of(a) == wallet_name_of(b),
    ensures
        a == b,
{
    lemma_address_round_trip(a);
    lemma_address_round_trip(b);
}

/// Hex-encode bytes.
pub fn hex_encode(bs: &Vec<u8>) -> (r: Vec<u8>)
    ensures
        r@ == hex_of(bs@),
{
    let mut out: Vec<u8> = Vec::new();
    let mut i: usize = 0;
    while i < bs.len()
        invariant
            0 <= i <= bs@.len(),
            out@ == hex_of(bs@.take(i as int)),
        decreases bs@.len() - i,
    {
        let b = bs[i];
        let hi: u8 = b / 16;
        let lo: u8 = b % 16;
        out.push(if hi < 10 { 48 + hi } else { 87 + hi });
        out.push(if lo < 10 { 48 + lo } else { 87 + lo });
        proof {
            lemma_hex_of_take_step(bs@, i as int);
        }
        i += 1;
    }
    proof {
        assert(bs@.take(bs@.len() as int) =~= bs@);
    }
    out
}

/// Appending one byte appends its two digits.
proof fn lemma_hex_of_take_step(bs: Seq<u8>, i: int)
    requires
        0 <= i < bs.len(),
    ensures
        hex_of(bs.take(i + 1)) == hex_of(bs.take(i)) + seq![
            hex_digit(bs[i] / 16),
            hex_digit(bs[i] % 16),
        ],
    decreases i,
{
    if i == 0 {
        assert(bs.take(1).skip(1) =~= Seq::<u8>::empty());
        assert(bs.take(1)[0] == bs[0]);
        assert(hex_of(Seq::<u8>::empty()) =~= Seq::<u8>::empty());
        assert(hex_of(bs.take(0)) =~= Seq::<u8>::empty());
        assert(hex_of(bs.take(1)) =~= seq![hex_digit(bs[0] / 16), hex_digit(bs[0] % 16)]);
    } else {
        lemma_hex_of_take_step(bs.skip(1), i - 1);
        assert(bs.take(i + 1).skip(1) =~= bs.skip(1).take(i));
        assert(bs.take(i).skip(1) =~= bs.skip(1).take(i - 1));
        assert(bs.skip(1)[i - 1] == bs[i]);
        assert(hex_of(bs.take(i + 1)) =~= hex_of(bs.take(i)) + seq![
            hex_digit(bs[i] / 16),
            hex_digit(bs[i] % 16),
        ]);
    }
}

/// Decode a hex string; `None` if it is not well-formed hex.
pub fn hex_decode(s: &Vec<u8>) -> (r: Option<Vec<u8>>)
    ensures
        match r {
            Some(bs) => unhex_of(s@) == Some(bs@),
            None => unhex_of(s@) is None,
        },
{
    if s.len() % 2 != 0 {
        proof {
            lemma_unhex_odd(s@);
        }
        return None;
    }
    let mut out: Vec<u8> = Vec::new();
    let mut i: usize = 0;
    proof {
        assert(s@.skip(0) =~= s@);
        if let Some(rest) = unhex_of(s@) {
            assert(Seq::<u8>::empty() + rest =~= rest);
        }
    }
    while i < s.len()
        invariant
            0 <= i <= s@.len(),
            i % 2 == 0,
            s@.len() % 2 == 0,
            match unhex_of(s@.skip(i as int)) {
                Some(rest) => unhex_of(s@) == Some(out@ + rest),
                None => unhex_of(s@) is None,
            },
        decreases s@.len() - i,
    {
        let c0 = s[i];
        let c1 = s[i + 1];
        let hi: u8;
        let lo: u8;
        if 48 <= c0 && c0 <= 57 {
            hi = c0 - 48;
        } else if 97 <= c0 && c0 <= 102 {
            hi = c0 - 87;
        } else {
            proof {
                lemma_unhex_prefix_bad(s@, i as int);
            }
            return None;
        }
        if 48 <= c1 && c1 <= 57 {
            lo = c1 - 48;
        } else if 97 <= c1 && c1 <= 102 {
            lo = c1 - 87;
        } else {
            proof {
                lemma_unhex_prefix_bad(s@, i as int);
            }
            return None;
        }
        proof {
            assert(s@.skip(i as int).len() >= 2);
            assert(s@.skip(i as int)[0] == s@[i as int]);
            assert(s@.skip(i as int)[1] == s@[i as int + 1]);
            assert(s@.skip(i as int).skip(2) =~= s@.skip(i as int + 2));
        }
        out.push(hi * 16 + lo);
        proof {
            let prev = out@.drop_last();
            assert(prev.push((hi * 16 + lo) as u8) =~= out@);
            if let Some(rest) = unhex_of(s@.skip(i as int + 2)) {
                assert(unhex_of(s@.skip(i as int)) == Some(
                    seq![(hi * 16 + lo) as u8] + rest,
                ));
                assert(prev + (seq![(hi * 16 + lo) as u8] + rest) =~= out@ + rest);
            }
        }
        i += 2;
    }
    proof {
        assert(s@.skip(s@.len() as int) =~= Seq::<u8>::empty());
        assert(out@ + Seq::<u8>::empty() =~= out@);
    }
    Some(out)
}

/// Hex strings of odd length are malformed.
proof fn lemma_unhex_odd(s: Seq<u8>)
    requires
        s.len() % 2 != 0,
    ensures
        unhex_of(s) is None,
    decreases s.len(),
{
    if s.len() > 1 {
        lemma_unhex_odd(s.skip(2));
    }
}

/// A malformed digit pair anywhere makes the whole string malformed.
proof fn lemma_unhex_prefix_bad(s: Seq<u8>, i: int)
    requires
        0 <= i,
        i + 2 <= s.len(),
        hex_value(s[i]) is None || hex_value(s[i + 1]) is None,
    ensures
        unhex_of(s.skip(i)) is None,
{
    assert(s.skip(i)[0] == s[i]);
    assert(s.skip(i)[1] == s[i + 1]);
}

/// The canonical text of an address, as ASCII bytes.
pub fn encode_address(a: &Address) -> (r: Vec<u8>)
    ensures
        r@ == encoded_address(a@),
{
    let mut out: Vec<u8> = Vec::new();
    out.push(match a.scheme {
        SignatureScheme::Secp256k1 => 49,
        SignatureScheme::Bls => 51,
    });
    let hex = hex_encode(&a.payload);
    let mut i: usize = 0;
    while i < hex.len()
        invariant
            0 <= i <= hex@.len(),
            out@ == seq![scheme_tag(a@.scheme)] + hex@.take(i as int),
        decreases hex@.len() - i,
    {
        out.push(hex[i]);
        proof {
            assert(seq![scheme_tag(a@.scheme)] + hex@.take(i + 1 as int) =~= (seq![
                scheme_tag(a@.scheme),
            ] + hex@.take(i as int)).push(hex@[i as int]));
        }
        i += 1;
    }
    proof {
        assert(hex@.take(hex@.len() as int) =~= hex@);
    }
    out
}

/// The storage name `wallet-<encoded address>` for an address.
pub fn wallet_name(a: &Address) -> (r: Vec<u8>)
    ensures
        r@ == wallet_name_of(a@),
{
    let mut out: Vec<u8> = Vec::new();
    out.push(119);
    out.push(97);
    out.push(108);
    out.push(108);
    out.push(101);
    out.push(116);
    out.push(45);
    proof {
        assert(out@ =~= wallet_prefix());
    }
    let enc = encode_address(a);
    let mut i: usize = 0;
    while i < enc.len()
        invariant
            0 <= i <= enc@.len(),
            out@ == wallet_prefix() + enc@.take(i as int),
        decreases enc@.len() - i,
    {
        out.push(enc[i]);
        proof {
            assert(wallet_prefix() + enc@.take(i + 1 as int) =~= (wallet_prefix() + enc@.take(
                i as int,
            )).push(enc@[i as int]));
        }
        i += 1;
    }
    proof {
        assert(enc@.take(enc@.len() as int) =~= enc@);
        assert(out@ =~= wallet_name_of(a@));
    }
    out
}

/// The bytes of the sentinel name `default`.
pub fn default_name_bytes() -> (r: Vec<u8>)
    ensures
        r@ == default_name(),
{
    let mut out: Vec<u8> = Vec::new();
    out.push(100);
    out.push(101);
    out.push(102);
    out.push(97);
    out.push(117);
    out.push(108);
    out.push(116);
    proof {
        assert(out@ =~= default_name());
    }
    out
}

/// Decode the address a storage name registers, if the name lies in the
/// `wallet-` namespace; `Err` distinguishes a name outside the namespace
/// (`false`) from a malformed encoded address inside it (`true`).
pub fn parse_wallet_name(n: &Vec<u8>) -> (r: Result<Address, bool>)
    ensures
        match r {
            Ok(a) => is_wallet_name(n@) && decoded_address(n@.skip(7)) == Some(a@),
            Err(in_namespace) => {
                &&& in_namespace == is_wallet_name(n@)
                &&& in_namespace ==> decoded_address(n@.skip(7)) is None
            },
        },
{
    if n.len() <= 7 {
        return Err(false);
    }
    let prefix = [119u8, 97, 108, 108, 101, 116, 45];
    let mut i: usize = 0;
    while i < 7
        invariant
            0 <= i <= 7,
            n@.len() > 7,
            prefix@ =~= wallet_prefix(),
            forall|j: int| 0 <= j < i ==> n@[j] == wallet_prefix()[j],
        decreases 7 - i,
    {
        if n[i] != prefix[i] {
            proof {
                assert(n@.take(7)[i as int] == n@[i as int]);
                assert(n@.take(7) != wallet_prefix());
            }
            return Err(false);
        }
        i += 1;
    }
    proof {
        assert(n@.take(7) =~= wallet_prefix());
    }
    let tag = n[7];
    let scheme = if tag == 49 {
        SignatureScheme::Secp256k1
    } else if tag == 51 {
        SignatureScheme::Bls
    } else {
        proof {
            assert(n@.skip(7)[0] == n@[7]);
        }
        return Err(true);
    };
    let mut rest: Vec<u8> = Vec::new();
    let mut j: usize = 8;
    while j < n.len()
        invariant
            8 <= j <= n@.len(),
            n@.len() > 7,
            rest@ == n@.subrange(8, j as int),
        decreases n@.len() - j,
    {
        rest.push(n[j]);
        proof {
            assert(n@.subrange(8, j + 1 as int) =~= n@.subrange(8, j as int).push(n@[j as int]));
        }
        j += 1;
    }
    proof {
        assert(n@.skip(7)[0] == n@[7]);
        assert(n@.skip(7).skip(1) =~= n@.subrange(8, n@.len() as int));
    }
    match hex_decode(&rest) {
        Some(payload) => Ok(Address::new(scheme, payload)),
        None => Err(true),
    }
}

} // verus!
