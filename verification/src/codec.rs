//! The codec: how typed keys and values become byte strings and back.
//!
//! Unsigned integers use a variable-width encoding with a fixed big-endian
//! byte order: values up to 250 are a single byte, larger values are a marker
//! byte (251, 252 or 253) followed by the value's big-endian bytes in the
//! smallest of 2, 4 or 8 bytes that holds it.  Big-endian order is a hard
//! requirement, not a choice: the underlying store compares keys as raw
//! bytes, and `range`, `first`, `last` and `pop_max` are only correct for
//! integer keys because this encoding preserves their order under that
//! comparison (`lemma_varint_enc_lt`).
//!
//! Byte vectors are encoded as their length followed by their raw bytes;
//! fixed-size byte arrays as their raw bytes alone.  Decoding reads one value
//! from the front of the input and ignores what follows it.

use vstd::prelude::*;

use crate::order::lemma_lex_from_diff;
use crate::order::lex_lt;

verus! {

/// The encoding of an unsigned integer.
pub open spec fn varint_enc(v: u64) -> Seq<u8> {
    if v <= 250 {
        seq![v as u8]
    } else if v <= 0xFFFF {
        seq![251u8, (v >> 8) as u8, v as u8]
    } else if v <= 0xFFFF_FFFF {
        seq![252u8, (v >> 24) as u8, (v >> 16) as u8, (v >> 8) as u8, v as u8]
    } else {
        seq![
            253u8,
            (v >> 56) as u8,
            (v >> 48) as u8,
            (v >> 40) as u8,
            (v >> 32) as u8,
            (v >> 24) as u8,
            (v >> 16) as u8,
            (v >> 8) as u8,
            v as u8,
        ]
    }
}

/// Reads one unsigned integer from the front of `bytes`: the decoded value
/// and how many bytes it occupied, or nothing if the input is empty, is
/// truncated, or starts with a marker this codec does not produce.
pub open spec fn varint_dec(bytes: Seq<u8>) -> Option<(u64, int)> {
    if bytes.len() == 0 {
        None
    } else if bytes[0] <= 250 {
        Some((bytes[0] as u64, 1))
    } else if bytes[0] == 251 {
        if bytes.len() >= 3 {
            Some((((bytes[1] as u64) << 8) | (bytes[2] as u64), 3))
        } else {
            None
        }
    } else if bytes[0] == 252 {
        if bytes.len() >= 5 {
            Some(
                (((bytes[1] as u64) << 24) | ((bytes[2] as u64) << 16) | ((bytes[3] as u64) << 8)
                    | (bytes[4] as u64), 5),
            )
        } else {
            None
        }
    } else if bytes[0] == 253 {
        if bytes.len() >= 9 {
            Some(
                (((bytes[1] as u64) << 56) | ((bytes[2] as u64) << 48) | ((bytes[3] as u64) << 40)
                    | ((bytes[4] as u64) << 32) | ((bytes[5] as u64) << 24) | ((bytes[6] as u64)
                    << 16) | ((bytes[7] as u64) << 8) | (bytes[8] as u64), 9),
            )
        } else {
            None
        }
    } else {
        None
    }
}

/// Decoding reads back exactly the integer that was encoded, wherever the
/// encoding stands at the front of the input.
pub proof fn lemma_varint_dec_enc(v: u64, rest: Seq<u8>)
    ensures
        varint_dec(varint_enc(v) + rest) == Some((v, varint_enc(v).len() as int)),
{
    let b = varint_enc(v) + rest;
    if v <= 250 {
        assert((v as u8) <= 250 && (v as u8) as u64 == v) by (bit_vector)
            requires
                v <= 250,
        ;
        assert(b[0] == v as u8);
    } else if v <= 0xFFFF {
        assert(b[0] == 251 && b[1] == (v >> 8) as u8 && b[2] == v as u8);
        assert(((((v >> 8) as u8) as u64) << 8) | ((v as u8) as u64) == v) by (bit_vector)
            requires
                v <= 0xFFFF,
        ;
    } else if v <= 0xFFFF_FFFF {
        assert(b[0] == 252 && b[1] == (v >> 24) as u8 && b[2] == (v >> 16) as u8 && b[3] == (v
            >> 8) as u8 && b[4] == v as u8);
        assert(((((v >> 24) as u8) as u64) << 24) | ((((v >> 16) as u8) as u64) << 16) | ((((v
            >> 8) as u8) as u64) << 8) | ((v as u8) as u64) == v) by (bit_vector)
            requires
                v <= 0xFFFF_FFFF,
        ;
    } else {
        assert(b[0] == 253 && b[1] == (v >> 56) as u8 && b[2] == (v >> 48) as u8 && b[3] == (v
            >> 40) as u8 && b[4] == (v >> 32) as u8 && b[5] == (v >> 24) as u8 && b[6] == (v
            >> 16) as u8 && b[7] == (v >> 8) as u8 && b[8] == v as u8);
        assert(((((v >> 56) as u8) as u64) << 56) | ((((v >> 48) as u8) as u64) << 48) | ((((v
            >> 40) as u8) as u64) << 40) | ((((v >> 32) as u8) as u64) << 32) | ((((v
            >> 24) as u8) as u64) << 24) | ((((v >> 16) as u8) as u64) << 16) | ((((v
            >> 8) as u8) as u64) << 8) | ((v as u8) as u64) == v) by (bit_vector);
    }
}

/// Order preservation: the encodings of two unsigned integers compare, as
/// raw bytes, the way the integers do.
pub proof fn lemma_varint_enc_lt(a: u64, b: u64)
    requires
        a < b,
    ensures
        lex_lt(varint_enc(a), varint_enc(b)),
{
    let ea = varint_enc(a);
    let eb = varint_enc(b);
    if b <= 250 {
        assert((a as u8) < (b as u8)) by (bit_vector)
            requires
                a < b && b <= 250,
        ;
        lemma_lex_from_diff(ea, eb, 0);
    } else if a <= 250 {
        assert((a as u8) <= 250) by (bit_vector)
            requires
                a <= 250,
        ;
        assert(ea[0] < eb[0]);
        assert(lex_lt(ea, eb));
    } else if b <= 0xFFFF {
        if (a >> 8) as u8 == (b >> 8) as u8 {
            assert((a as u8) < (b as u8)) by (bit_vector)
                requires
                    a < b && b <= 0xFFFF && (a >> 8) as u8 == (b >> 8) as u8,
            ;
            lemma_lex_from_diff(ea, eb, 2);
        } else {
            assert(((a >> 8) as u8) < ((b >> 8) as u8)) by (bit_vector)
                requires
                    a < b && b <= 0xFFFF && (a >> 8) as u8 != (b >> 8) as u8,
            ;
            lemma_lex_from_diff(ea, eb, 1);
        }
    } else if a <= 0xFFFF {
        assert(ea[0] < eb[0]);
        assert(lex_lt(ea, eb));
    } else if b <= 0xFFFF_FFFF {
        if (a >> 24) as u8 != (b >> 24) as u8 {
            assert(((a >> 24) as u8) < ((b >> 24) as u8)) by (bit_vector)
                requires
                    a < b && b <= 0xFFFF_FFFF && (a >> 24) as u8 != (b >> 24) as u8,
            ;
            lemma_lex_from_diff(ea, eb, 1);
        } else if (a >> 16) as u8 != (b >> 16) as u8 {
            assert(((a >> 16) as u8) < ((b >> 16) as u8)) by (bit_vector)
                requires
                    a < b && b <= 0xFFFF_FFFF && (a >> 24) as u8 == (b >> 24) as u8 && (a
                        >> 16) as u8 != (b >> 16) as u8,
            ;
            lemma_lex_from_diff(ea, eb, 2);
        } else if (a >> 8) as u8 != (b >> 8) as u8 {
            assert(((a >> 8) as u8) < ((b >> 8) as u8)) by (bit_vector)
                requires
                    a < b && b <= 0xFFFF_FFFF && (a >> 24) as u8 == (b >> 24) as u8 && (a
                        >> 16) as u8 == (b >> 16) as u8 && (a >> 8) as u8 != (b >> 8) as u8,
            ;
            lemma_lex_from_diff(ea, eb, 3);
        } else {
            assert((a as u8) < (b as u8)) by (bit_vector)
                requires
                    a < b && b <= 0xFFFF_FFFF && (a >> 24) as u8 == (b >> 24) as u8 && (a
                        >> 16) as u8 == (b >> 16) as u8 && (a >> 8) as u8 == (b >> 8) as u8,
            ;
            lemma_lex_from_diff(ea, eb, 4);
        }
    } else if a <= 0xFFFF_FFFF {
        assert(ea[0] < eb[0]);
        assert(lex_lt(ea, eb));
    } else {
        if (a >> 56) as u8 != (b >> 56) as u8 {
            assert(((a >> 56) as u8) < ((b >> 56) as u8)) by (bit_vector)
                requires
                    a < b && (a >> 56) as u8 != (b >> 56) as u8,
            ;
            lemma_lex_from_diff(ea, eb, 1);
        } else if (a >> 48) as u8 != (b >> 48) as u8 {
            assert(((a >> 48) as u8) < ((b >> 48) as u8)) by (bit_vector)
                requires
                    a < b && (a >> 56) as u8 == (b >> 56) as u8 && (a >> 48) as u8 != (b
                        >> 48) as u8,
            ;
            lemma_lex_from_diff(ea, eb, 2);
        } else if (a >> 40) as u8 != (b >> 40) as u8 {
            assert(((a >> 40) as u8) < ((b >> 40) as u8)) by (bit_vector)
                requires
                    a < b && (a >> 56) as u8 == (b >> 56) as u8 && (a >> 48) as u8 == (b
                        >> 48) as u8 && (a >> 40) as u8 != (b >> 40) as u8,
            ;
            lemma_lex_from_diff(ea, eb, 3);
        } else if (a >> 32) as u8 != (b >> 32) as u8 {
            assert(((a >> 32) as u8) < ((b >> 32) as u8)) by (bit_vector)
                requires
                    a < b && (a >> 56) as u8 == (b >> 56) as u8 && (a >> 48) as u8 == (b
                        >> 48) as u8 && (a >> 40) as u8 == (b >> 40) as u8 && (a >> 32) as u8 != (
                    b >> 32) as u8,
            ;
            lemma_lex_from_diff(ea, eb, 4);
        } else if (a >> 24) as u8 != (b >> 24) as u8 {
            assert(((a >> 24) as u8) < ((b >> 24) as u8)) by (bit_vector)
                requires
                    a < b && (a >> 56) as u8 == (b >> 56) as u8 && (a >> 48) as u8 == (b
                        >> 48) as u8 && (a >> 40) as u8 == (b >> 40) as u8 && (a >> 32) as u8 == (
                    b >> 32) as u8 && (a >> 24) as u8 != (b >> 24) as u8,
            ;
            lemma_lex_from_diff(ea, eb, 5);
        } else if (a >> 16) as u8 != (b >> 16) as u8 {
            assert(((a >> 16) as u8) < ((b >> 16) as u8)) by (bit_vector)
                requires
                    a < b && (a >> 56) as u8 == (b >> 56) as u8 && (a >> 48) as u8 == (b
                        >> 48) as u8 && (a >> 40) as u8 == (b >> 40) as u8 && (a >> 32) as u8 == (
                    b >> 32) as u8 && (a >> 24) as u8 == (b >> 24) as u8 && (a >> 16) as u8 != (b
                        >> 16) as u8,
            ;
            lemma_lex_from_diff(ea, eb, 6);
        } else if (a >> 8) as u8 != (b >> 8) as u8 {
            assert(((a >> 8) as u8) < ((b >> 8) as u8)) by (bit_vector)
                requires
                    a < b && (a >> 56) as u8 == (b >> 56) as u8 && (a >> 48) as u8 == (b
                        >> 48) as u8 && (a >> 40) as u8 == (b >> 40) as u8 && (a >> 32) as u8 == (
                    b >> 32) as u8 && (a >> 24) as u8 == (b >> 24) as u8 && (a >> 16) as u8 == (b
                        >> 16) as u8 && (a >> 8) as u8 != (b >> 8) as u8,
            ;
            lemma_lex_from_diff(ea, eb, 7);
        } else {
            assert((a as u8) < (b as u8)) by (bit_vector)
                requires
                    a < b && (a >> 56) as u8 == (b >> 56) as u8 && (a >> 48) as u8 == (b
                        >> 48) as u8 && (a >> 40) as u8 == (b >> 40) as u8 && (a >> 32) as u8 == (
                    b >> 32) as u8 && (a >> 24) as u8 == (b >> 24) as u8 && (a >> 16) as u8 == (b
                        >> 16) as u8 && (a >> 8) as u8 == (b >> 8) as u8,
            ;
            lemma_lex_from_diff(ea, eb, 8);
        }
    }
}

/// Order preservation, both ways: two unsigned integers compare exactly as
/// their encodings do under the store's byte order.  This is why `first`,
/// `last`, `pop_max` and ranges over integer keys surface the numerically
/// least and greatest entries.
pub proof fn lemma_varint_enc_order(a: u64, b: u64)
    ensures
        lex_lt(varint_enc(a), varint_enc(b)) <==> a < b,
{
    if a < b {
        lemma_varint_enc_lt(a, b);
    } else if b < a {
        lemma_varint_enc_lt(b, a);
        crate::order::lemma_lex_asym(varint_enc(b), varint_enc(a));
    } else {
        if lex_lt(varint_enc(a), varint_enc(b)) {
            crate::order::lemma_lex_asym(varint_enc(a), varint_enc(b));
        }
    }
}

/// Writes the encoding of an unsigned integer.
pub fn varint_encode(v: u64) -> (r: Vec<u8>)
    ensures
        r@ == varint_enc(v),
{
    let mut out: Vec<u8> = Vec::new();
    if v <= 250 {
        out.push(v as u8);
    } else if v <= 0xFFFF {
        out.push(251);
        out.push((v >> 8) as u8);
        out.push(v as u8);
    } else if v <= 0xFFFF_FFFF {
        out.push(252);
        out.push((v >> 24) as u8);
        out.push((v >> 16) as u8);
        out.push((v >> 8) as u8);
        out.push(v as u8);
    } else {
        out.push(253);
        out.push((v >> 56) as u8);
        out.push((v >> 48) as u8);
        out.push((v >> 40) as u8);
        out.push((v >> 32) as u8);
        out.push((v >> 24) as u8);
        out.push((v >> 16) as u8);
        out.push((v >> 8) as u8);
        out.push(v as u8);
    }
    proof {
        assert(out@ =~= varint_enc(v));
    }
    out
}

/// Reads one unsigned integer from the front of `bytes`.
pub fn varint_decode(bytes: &[u8]) -> (r: Option<(u64, usize)>)
    ensures
        match r {
            Some(p) => varint_dec(bytes@) == Some((p.0, p.1 as int)) && p.1 <= bytes@.len(),
            None => varint_dec(bytes@) is None,
        },
{
    if bytes.len() == 0 {
        return None;
    }
    let b0 = bytes[0];
    if b0 <= 250 {
        Some((b0 as u64, 1))
    } else if b0 == 251 {
        if bytes.len() >= 3 {
            Some((((bytes[1] as u64) << 8) | (bytes[2] as u64), 3))
        } else {
            None
        }
    } else if b0 == 252 {
        if bytes.len() >= 5 {
            Some(
                (((bytes[1] as u64) << 24) | ((bytes[2] as u64) << 16) | ((bytes[3] as u64) << 8)
                    | (bytes[4] as u64), 5),
            )
        } else {
            None
        }
    } else if b0 == 253 {
        if bytes.len() >= 9 {
            Some(
                (((bytes[1] as u64) << 56) | ((bytes[2] as u64) << 48) | ((bytes[3] as u64) << 40)
                    | ((bytes[4] as u64) << 32) | ((bytes[5] as u64) << 24) | ((bytes[6] as u64)
                    << 16) | ((bytes[7] as u64) << 8) | (bytes[8] as u64), 9),
            )
        } else {
            None
        }
    } else {
        None
    }
}

/// A codec binding: a type whose values encode to byte strings and decode
/// back, stated over the type's view.
pub trait Codec: View + Sized {
    /// The views that a live value of the type can have.
    spec fn valid(v: Self::V) -> bool;

    /// The byte string that encodes a value with view `v`.
    spec fn encv(v: Self::V) -> Seq<u8>;

    /// The view, if any, that the front of `bytes` decodes to.
    spec fn decv(bytes: Seq<u8>) -> Option<Self::V>;

    /// Every live value has a valid view.
    proof fn lemma_valid(&self)
        ensures
            Self::valid(self@),
    ;

    /// Round-trip law: decoding an encoding yields the encoded value.
    proof fn lemma_round_trip(v: Self::V)
        requires
            Self::valid(v),
        ensures
            Self::decv(Self::encv(v)) == Some(v),
    ;

    /// Encode a value.  Every value a codec-bound type can hold is
    /// representable, so encoding does not fail.
    fn encode(&self) -> (r: Vec<u8>)
        ensures
            r@ == Self::encv(self@),
    ;

    /// Decode a value from the front of `bytes`; returns nothing exactly
    /// when the bytes are not an encoding for this type.
    fn decode(bytes: &[u8]) -> (r: Option<Self>)
        ensures
            match r {
                Some(v) => Self::decv(bytes@) == Some(v@) && Self::valid(v@),
                None => Self::decv(bytes@) is None,
            },
    ;
}

impl Codec for u64 {
    open spec fn valid(v: u64) -> bool {
        true
    }

    open spec fn encv(v: u64) -> Seq<u8> {
        varint_enc(v)
    }

    open spec fn decv(bytes: Seq<u8>) -> Option<u64> {
        match varint_dec(bytes) {
            Some(p) => Some(p.0),
            None => None,
        }
    }

    proof fn lemma_valid(&self) {
    }

    proof fn lemma_round_trip(v: u64) {
        lemma_varint_dec_enc(v, Seq::empty());
        assert(varint_enc(v) + Seq::empty() =~= varint_enc(v));
    }

    fn encode(&self) -> (r: Vec<u8>) {
        varint_encode(*self)
    }

    fn decode(bytes: &[u8]) -> (r: Option<u64>) {
        match varint_decode(bytes) {
            Some(p) => Some(p.0),
            None => None,
        }
    }
}

impl Codec for Vec<u8> {
    open spec fn valid(v: Seq<u8>) -> bool {
        v.len() <= usize::MAX
    }

    open spec fn encv(v: Seq<u8>) -> Seq<u8> {
        varint_enc(v.len() as u64) + v
    }

    open spec fn decv(bytes: Seq<u8>) -> Option<Seq<u8>> {
        match varint_dec(bytes) {
            Some(p) => if p.0 <= bytes.len() - p.1 {
                Some(bytes.subrange(p.1, p.1 + p.0))
            } else {
                None
            },
            None => None,
        }
    }

    proof fn lemma_valid(&self) {
        assert(vstd::std_specs::vec::spec_vec_len(self) == self@.len());
    }

    proof fn lemma_round_trip(v: Seq<u8>) {
        let n = v.len() as u64;
        lemma_varint_dec_enc(n, v);
        let e = varint_enc(n) + v;
        assert(varint_dec(e) == Some((n, varint_enc(n).len() as int)));
        assert(e.subrange(varint_enc(n).len() as int, varint_enc(n).len() + n) =~= v);
    }

    fn encode(&self) -> (r: Vec<u8>) {
        proof {
            self.lemma_valid();
        }
        let n = self.len();
        let mut out = varint_encode(n as u64);
        let mut i: usize = 0;
        while i < n
            invariant
                n == self@.len(),
                0 <= i <= n,
                out@ == varint_enc(n as u64) + self@.subrange(0, i as int),
            decreases n - i,
        {
            out.push(self[i]);
            proof {
                assert(self@.subrange(0, i + 1) =~= self@.subrange(0, i as int).push(self@[
                    i as int]));
            }
            i = i + 1;
        }
        proof {
            assert(self@.subrange(0, n as int) =~= self@);
        }
        out
    }

    fn decode(bytes: &[u8]) -> (r: Option<Vec<u8>>) {
        match varint_decode(bytes) {
            Some(p) => {
                let n = p.0;
                let c = p.1;
                let rem = bytes.len() - c;
                if n <= rem as u64 {
                    proof {
                        assert(n <= rem as u64 ==> (n as usize) as u64 == n && (
                        n as usize) as int == n) by (bit_vector);
                    }
                    let len = n as usize;
                    let part = vstd::slice::slice_subrange(bytes, c, c + len);
                    let out = vstd::slice::slice_to_vec(part);
                    Some(out)
                } else {
                    None
                }
            },
            None => None,
        }
    }
}

impl Codec for [u8; 1] {
    open spec fn valid(v: Seq<u8>) -> bool {
        v.len() == 1
    }

    open spec fn encv(v: Seq<u8>) -> Seq<u8> {
        v
    }

    open spec fn decv(bytes: Seq<u8>) -> Option<Seq<u8>> {
        if bytes.len() >= 1 {
            Some(seq![bytes[0]])
        } else {
            None
        }
    }

    proof fn lemma_valid(&self) {
    }

    proof fn lemma_round_trip(v: Seq<u8>) {
        assert(seq![v[0]] =~= v);
    }

    fn encode(&self) -> (r: Vec<u8>) {
        let mut out: Vec<u8> = Vec::new();
        out.push(self[0]);
        proof {
            assert(out@ =~= self@);
        }
        out
    }

    fn decode(bytes: &[u8]) -> (r: Option<[u8; 1]>) {
        if bytes.len() >= 1 {
            let a = [bytes[0]];
            proof {
                assert(a@ =~= seq![bytes@[0]]);
            }
            Some(a)
        } else {
            None
        }
    }
}

impl Codec for [u8; 2] {
    open spec fn valid(v: Seq<u8>) -> bool {
        v.len() == 2
    }

    open spec fn encv(v: Seq<u8>) -> Seq<u8> {
        v
    }

    open spec fn decv(bytes: Seq<u8>) -> Option<Seq<u8>> {
        if bytes.len() >= 2 {
            Some(seq![bytes[0], bytes[1]])
        } else {
            None
        }
    }

    proof fn lemma_valid(&self) {
    }

    proof fn lemma_round_trip(v: Seq<u8>) {
        assert(seq![v[0], v[1]] =~= v);
    }

    fn encode(&self) -> (r: Vec<u8>) {
        let mut out: Vec<u8> = Vec::new();
        out.push(self[0]);
        out.push(self[1]);
        proof {
            assert(out@ =~= self@);
        }
        out
    }

    fn decode(bytes: &[u8]) -> (r: Option<[u8; 2]>) {
        if bytes.len() >= 2 {
            let a = [bytes[0], bytes[1]];
            proof {
                assert(a@ =~= seq![bytes@[0], bytes@[1]]);
            }
            Some(a)
        } else {
            None
        }
    }
}

} // verus!
