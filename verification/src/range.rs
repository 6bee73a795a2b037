//! The bound translator: typed range expressions and their byte-level form.
//!
//! A typed range has an independent start and end, each absent, inclusive or
//! exclusive.  Translation keeps each bound's shape and replaces its value by
//! the value's encoding; an absent bound carries no value and is never
//! encoded.

use vstd::prelude::*;

use crate::codec::Codec;
use crate::order::lex_le;
use crate::order::lex_lt;

verus! {

/// One end of a range: absent, inclusive of its value, or exclusive of it.
pub enum RangeBound<T> {
    Unbounded,
    Inclusive(T),
    Exclusive(T),
}

impl<T: View> View for RangeBound<T> {
    type V = RangeBound<T::V>;

    open spec fn view(&self) -> RangeBound<T::V> {
        match self {
            RangeBound::Unbounded => RangeBound::Unbounded,
            RangeBound::Inclusive(t) => RangeBound::Inclusive(t@),
            RangeBound::Exclusive(t) => RangeBound::Exclusive(t@),
        }
    }
}

/// Whether the key lies on or above the start bound, by byte order.
pub open spec fn above_start(k: Seq<u8>, b: RangeBound<Seq<u8>>) -> bool {
    match b {
        RangeBound::Unbounded => true,
        RangeBound::Inclusive(s) => lex_le(s, k),
        RangeBound::Exclusive(s) => lex_lt(s, k),
    }
}

/// Whether the key lies on or below the end bound, by byte order.
pub open spec fn below_end(k: Seq<u8>, b: RangeBound<Seq<u8>>) -> bool {
    match b {
        RangeBound::Unbounded => true,
        RangeBound::Inclusive(s) => lex_le(k, s),
        RangeBound::Exclusive(s) => lex_lt(k, s),
    }
}

/// Whether the key lies within both bounds.
pub open spec fn within(k: Seq<u8>, lo: RangeBound<Seq<u8>>, hi: RangeBound<Seq<u8>>) -> bool {
    above_start(k, lo) && below_end(k, hi)
}

/// The entries of `m` whose keys lie within the bounds.
pub open spec fn restrict_range(
    m: Map<Seq<u8>, Seq<u8>>,
    lo: RangeBound<Seq<u8>>,
    hi: RangeBound<Seq<u8>>,
) -> Map<Seq<u8>, Seq<u8>> {
    m.restrict(Set::new(|k: Seq<u8>| within(k, lo, hi)))
}

/// With both bounds absent, nothing is filtered away.
pub proof fn lemma_restrict_unbounded(m: Map<Seq<u8>, Seq<u8>>)
    ensures
        restrict_range(m, RangeBound::Unbounded, RangeBound::Unbounded) == m,
{
    assert(restrict_range(m, RangeBound::Unbounded, RangeBound::Unbounded) =~= m);
}

/// The bound with its value, if present, replaced by that value's encoding.
pub open spec fn encoded_bound<K: Codec>(b: RangeBound<K::V>) -> RangeBound<Seq<u8>> {
    match b {
        RangeBound::Unbounded => RangeBound::Unbounded,
        RangeBound::Inclusive(v) => RangeBound::Inclusive(K::encv(v)),
        RangeBound::Exclusive(v) => RangeBound::Exclusive(K::encv(v)),
    }
}

/// Translates one typed bound to its byte-level form: the shape is kept, a
/// present value is encoded, an absent bound passes through untouched.
pub fn translate_bound<K: Codec>(b: &RangeBound<K>) -> (r: RangeBound<Vec<u8>>)
    ensures
        r@ == encoded_bound::<K>(b@),
{
    match b {
        RangeBound::Unbounded => RangeBound::Unbounded,
        RangeBound::Inclusive(k) => RangeBound::Inclusive(k.encode()),
        RangeBound::Exclusive(k) => RangeBound::Exclusive(k.encode()),
    }
}

} // verus!
