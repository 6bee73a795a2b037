//! Lexicographic order on byte strings, and the shape of an ordered
//! enumeration of a byte-keyed map.
//!
//! The underlying store keeps its entries sorted by byte-wise lexicographic
//! comparison of the keys; everything the library proves about `first`,
//! `last`, `pop_max`, iteration and ranges rests on the definitions here.

use vstd::prelude::*;

verus! {

/// Strict lexicographic order on byte strings: the first differing byte
/// decides, and a proper prefix sorts before every extension of it.
pub open spec fn lex_lt(a: Seq<u8>, b: Seq<u8>) -> bool
    decreases a.len(),
{
    if b.len() == 0 {
        false
    } else if a.len() == 0 {
        true
    } else if a[0] < b[0] {
        true
    } else if a[0] > b[0] {
        false
    } else {
        lex_lt(a.drop_first(), b.drop_first())
    }
}

/// Non-strict lexicographic order.
pub open spec fn lex_le(a: Seq<u8>, b: Seq<u8>) -> bool {
    a == b || lex_lt(a, b)
}

/// Two byte strings never sort strictly below each other at once.
pub proof fn lemma_lex_asym(a: Seq<u8>, b: Seq<u8>)
    requires
        lex_lt(a, b),
    ensures
        !lex_lt(b, a),
        a != b,
    decreases a.len(),
{
    if a.len() > 0 && b.len() > 0 && a[0] == b[0] {
        lemma_lex_asym(a.drop_first(), b.drop_first());
        if a == b {
            assert(a.drop_first() == b.drop_first());
        }
    } else if a == b {
        assert(a.len() == b.len());
    }
}

/// Equal-length byte strings compare by their first differing position.
pub proof fn lemma_lex_from_diff(a: Seq<u8>, b: Seq<u8>, i: int)
    requires
        a.len() == b.len(),
        0 <= i < a.len(),
        forall|j: int| 0 <= j < i ==> a[j] == b[j],
        a[i] < b[i],
    ensures
        lex_lt(a, b),
    decreases i,
{
    if i > 0 {
        assert(a[0] == b[0]);
        assert forall|j: int| 0 <= j < i - 1 implies a.drop_first()[j] == b.drop_first()[j] by {
            assert(a.drop_first()[j] == a[j + 1]);
            assert(b.drop_first()[j] == b[j + 1]);
        }
        assert(a.drop_first()[i - 1] == a[i]);
        assert(b.drop_first()[i - 1] == b[i]);
        lemma_lex_from_diff(a.drop_first(), b.drop_first(), i - 1);
    }
}

/// `s` lists exactly the entries of the map `m`, as `(key, value)` pairs with
/// the keys strictly ascending in lexicographic order.
pub open spec fn entries_match(s: Seq<(Seq<u8>, Seq<u8>)>, m: Map<Seq<u8>, Seq<u8>>) -> bool {
    &&& forall|i: int| 0 <= i < s.len() ==> m.contains_pair((#[trigger] s[i]).0, s[i].1)
    &&& forall|k: Seq<u8>|
        m.dom().contains(k) ==> exists|i: int| 0 <= i < s.len() && (#[trigger] s[i]).0 == k
    &&& forall|i: int, j: int|
        0 <= i < j < s.len() ==> lex_lt((#[trigger] s[i]).0, (#[trigger] s[j]).0)
}

/// The ordered enumeration of a byte-keyed map; meaningful wherever some
/// enumeration exists, and then unique by `lemma_entries_match_unique`.
pub open spec fn sorted_entries(m: Map<Seq<u8>, Seq<u8>>) -> Seq<(Seq<u8>, Seq<u8>)> {
    choose|s: Seq<(Seq<u8>, Seq<u8>)>| entries_match(s, m)
}

/// A map has at most one ordered enumeration.
pub proof fn lemma_entries_match_unique(
    s1: Seq<(Seq<u8>, Seq<u8>)>,
    s2: Seq<(Seq<u8>, Seq<u8>)>,
    m: Map<Seq<u8>, Seq<u8>>,
)
    requires
        entries_match(s1, m),
        entries_match(s2, m),
    ensures
        s1 == s2,
    decreases s1.len(),
{
    if s1.len() == 0 {
        if s2.len() > 0 {
            assert(m.dom().contains(s2[0].0));
            assert(false);
        }
        assert(s1 =~= s2);
    } else {
        assert(m.dom().contains(s1[0].0));
        let i2 = choose|i: int| 0 <= i < s2.len() && (#[trigger] s2[i]).0 == s1[0].0;
        assert(m.dom().contains(s2[0].0));
        let i1 = choose|i: int| 0 <= i < s1.len() && (#[trigger] s1[i]).0 == s2[0].0;
        if i1 > 0 && i2 > 0 {
            assert(lex_lt(s1[0].0, s1[i1].0));
            assert(lex_lt(s2[0].0, s2[i2].0));
            lemma_lex_asym(s1[0].0, s2[0].0);
            assert(false);
        }
        assert(s1[0].0 == s2[0].0);
        assert(s1[0].1 == m[s1[0].0]);
        assert(s2[0].1 == m[s1[0].0]);
        assert(s1[0] == s2[0]);
        let k0 = s1[0].0;
        let mr = m.remove(k0);
        lemma_tail_matches(s1, m);
        lemma_tail_matches(s2, m);
        lemma_entries_match_unique(s1.drop_first(), s2.drop_first(), mr);
        assert(s1 =~= s2) by {
            assert forall|i: int| 0 <= i < s1.len() implies s1[i] == s2[i] by {
                if i > 0 {
                    assert(s1[i] == s1.drop_first()[i - 1]);
                    assert(s2[i] == s2.drop_first()[i - 1]);
                }
            }
        }
    }
}

/// Dropping the least entry of an ordered enumeration enumerates the map
/// without that key.
proof fn lemma_tail_matches(s: Seq<(Seq<u8>, Seq<u8>)>, m: Map<Seq<u8>, Seq<u8>>)
    requires
        entries_match(s, m),
        s.len() > 0,
    ensures
        entries_match(s.drop_first(), m.remove(s[0].0)),
{
    let k0 = s[0].0;
    let t = s.drop_first();
    let mr = m.remove(k0);
    assert forall|i: int| 0 <= i < t.len() implies mr.contains_pair((#[trigger] t[i]).0, t[i].1) by {
        assert(t[i] == s[i + 1]);
        assert(lex_lt(s[0].0, s[i + 1].0));
        lemma_lex_asym(s[0].0, s[i + 1].0);
    }
    assert forall|k: Seq<u8>| mr.dom().contains(k) implies exists|i: int|
        0 <= i < t.len() && (#[trigger] t[i]).0 == k by {
        assert(m.dom().contains(k));
        let i = choose|i: int| 0 <= i < s.len() && (#[trigger] s[i]).0 == k;
        assert(i != 0);
        assert(t[i - 1] == s[i]);
        assert(0 <= i - 1 < t.len() && t[i - 1].0 == k);
    }
    assert forall|i: int, j: int| 0 <= i < j < t.len() implies lex_lt(
        (#[trigger] t[i]).0,
        (#[trigger] t[j]).0,
    ) by {
        assert(t[i] == s[i + 1]);
        assert(t[j] == s[j + 1]);
    }
}

/// The empty enumeration lists the empty map.
pub proof fn lemma_empty_entries()
    ensures
        entries_match(Seq::<(Seq<u8>, Seq<u8>)>::empty(), Map::<Seq<u8>, Seq<u8>>::empty()),
        sorted_entries(Map::<Seq<u8>, Seq<u8>>::empty()) == Seq::<(Seq<u8>, Seq<u8>)>::empty(),
{
    let s0 = Seq::<(Seq<u8>, Seq<u8>)>::empty();
    let m0 = Map::<Seq<u8>, Seq<u8>>::empty();
    assert(entries_match(s0, m0));
    lemma_entries_match_unique(sorted_entries(m0), s0, m0);
}

} // verus!
