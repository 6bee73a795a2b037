//! The typed trees over the library's own codec: a relaxed tree that takes
//! its key and value types anew at every call, and a strict tree that pins
//! one key type and one value type at construction.
//!
//! Every operation encodes through [`Codec`], talks to the store in raw
//! bytes, and decodes what comes back.  The store accepts any bytes, so a
//! decode failure is how — and the only place where — a type mismatch shows.

use vstd::prelude::*;

use crate::codec::Codec;
use crate::error::decode_mismatch_error;
use crate::error::Error;
use crate::order::entries_match;
use crate::order::lex_le;
use crate::order::lemma_entries_match_unique;
use crate::order::sorted_entries;
use crate::range::encoded_bound;
use crate::range::restrict_range;
use crate::range::translate_bound;
use crate::range::RangeBound;
use crate::store::iter_entries;
use crate::store::tree_entries;
use crate::store;

verus! {

/// The view-level pairs that decoding an entry list as `(K, V)` yields:
/// entries whose key and value both decode are kept, in order; the rest
/// are silently skipped.
pub open spec fn decoded_pairs<K: Codec, V: Codec>(s: Seq<(Seq<u8>, Seq<u8>)>) -> Seq<
    (K::V, V::V),
>
    decreases s.len(),
{
    if s.len() == 0 {
        Seq::empty()
    } else {
        let rest = decoded_pairs::<K, V>(s.drop_last());
        match (K::decv(s.last().0), V::decv(s.last().1)) {
            (Some(k), Some(v)) => rest.push((k, v)),
            _ => rest,
        }
    }
}

/// Like [`decoded_pairs`], but the raw key bytes are kept unconverted and
/// only the value is decoded; entries whose value fails to decode are
/// skipped.
pub open spec fn decoded_values<V: Codec>(s: Seq<(Seq<u8>, Seq<u8>)>) -> Seq<(Seq<u8>, V::V)>
    decreases s.len(),
{
    if s.len() == 0 {
        Seq::empty()
    } else {
        let rest = decoded_values::<V>(s.drop_last());
        match V::decv(s.last().1) {
            Some(v) => rest.push((s.last().0, v)),
            None => rest,
        }
    }
}

/// The views of a list of typed pairs.
pub open spec fn pair_views<K: View, V: View>(s: Seq<(K, V)>) -> Seq<(K::V, V::V)> {
    s.map_values(|p: (K, V)| (p.0@, p.1@))
}

/// Insert/get law: after storing `v` under `k`, looking `k` up succeeds
/// and yields `v` — and every other key is untouched, so the answer stands
/// until `k` is overwritten or removed.
pub proof fn lemma_insert_then_get<K: Codec, V: Codec>(
    m: Map<Seq<u8>, Seq<u8>>,
    k: K::V,
    v: V::V,
)
    requires
        K::valid(k),
        V::valid(v),
    ensures
        ({
            let m2 = m.insert(K::encv(k), V::encv(v));
            &&& m2.contains_key(K::encv(k))
            &&& V::decv(m2[K::encv(k)]) == Some(v)
            &&& forall|other: Seq<u8>|
                other != K::encv(k) ==> (#[trigger] m2.contains_key(other) == m.contains_key(
                    other,
                ) && (m.contains_key(other) ==> m2[other] == m[other]))
        }),
{
    V::lemma_round_trip(v);
}

/// Overwrite law: a second insert under the same key returns the first
/// value, and a later lookup yields the second.
pub proof fn lemma_overwrite<K: Codec, V: Codec>(
    m: Map<Seq<u8>, Seq<u8>>,
    k: K::V,
    v1: V::V,
    v2: V::V,
)
    requires
        K::valid(k),
        V::valid(v1),
        V::valid(v2),
    ensures
        ({
            let m1 = m.insert(K::encv(k), V::encv(v1));
            let m2 = m1.insert(K::encv(k), V::encv(v2));
            &&& m1.contains_key(K::encv(k))
            &&& V::decv(m1[K::encv(k)]) == Some(v1)
            &&& V::decv(m2[K::encv(k)]) == Some(v2)
        }),
{
    V::lemma_round_trip(v1);
    V::lemma_round_trip(v2);
}

/// Pop-max law: removing a present key drops the count by exactly one and
/// leaves the key absent.
pub proof fn lemma_pop_max_effect(m: Map<Seq<u8>, Seq<u8>>, kb: Seq<u8>)
    requires
        m.dom().finite(),
        m.contains_key(kb),
    ensures
        m.remove(kb).dom().len() == m.dom().len() - 1,
        !m.remove(kb).contains_key(kb),
{
    assert(m.remove(kb).dom() =~= m.dom().remove(kb));
    vstd::set::axiom_set_remove_len(m.dom(), kb);
}

/// Idempotent-clear law: a cleared tree enumerates to nothing, decodes to
/// nothing, and counts zero entries.
pub proof fn lemma_clear_leaves_nothing<K: Codec, V: Codec>()
    ensures
        sorted_entries(Map::<Seq<u8>, Seq<u8>>::empty()) == Seq::<(Seq<u8>, Seq<u8>)>::empty(),
        decoded_pairs::<K, V>(Seq::<(Seq<u8>, Seq<u8>)>::empty()) == Seq::<(K::V, V::V)>::empty(),
        Map::<Seq<u8>, Seq<u8>>::empty().dom().len() == 0,
{
    crate::order::lemma_empty_entries();
    assert(Map::<Seq<u8>, Seq<u8>>::empty().dom() =~= Set::<Seq<u8>>::empty());
}

/// Decode-skip law: an entry that does not decode as the requested types
/// contributes nothing to what iteration yields — and raises no error.
pub proof fn lemma_decoded_pairs_skip<K: Codec, V: Codec>(
    s: Seq<(Seq<u8>, Seq<u8>)>,
    p: (Seq<u8>, Seq<u8>),
)
    requires
        K::decv(p.0) is None || V::decv(p.1) is None,
    ensures
        decoded_pairs::<K, V>(s.push(p)) == decoded_pairs::<K, V>(s),
{
    assert(s.push(p).drop_last() =~= s);
}

/// Decode-keep law: an entry whose two sides decode appears in what
/// iteration yields, in place.
pub proof fn lemma_decoded_pairs_keep<K: Codec, V: Codec>(
    s: Seq<(Seq<u8>, Seq<u8>)>,
    p: (Seq<u8>, Seq<u8>),
    k: K::V,
    v: V::V,
)
    requires
        K::decv(p.0) == Some(k),
        V::decv(p.1) == Some(v),
    ensures
        decoded_pairs::<K, V>(s.push(p)) == decoded_pairs::<K, V>(s).push((k, v)),
{
    assert(s.push(p).drop_last() =~= s);
}

/// A tree that takes any codec-bound key or value type, chosen per call.
/// Nothing pins the types between calls: reading with types other than
/// those that wrote is found out, at decode time, as an error or a skipped
/// entry.
pub struct RelaxedTree {
    inner_tree: sled::Tree,
}

impl View for RelaxedTree {
    type V = Map<Seq<u8>, Seq<u8>>;

    closed spec fn view(&self) -> Map<Seq<u8>, Seq<u8>> {
        tree_entries(self.inner_tree)
    }
}

impl RelaxedTree {
    /// Wraps a tree handle of the store.
    pub fn new(tree: sled::Tree) -> (r: Self)
        ensures
            r@ == tree_entries(tree),
    {
        RelaxedTree { inner_tree: tree }
    }

    /// Looks the key up and decodes the stored value, if any.  Absence is
    /// `Ok(None)`, not an error; stored bytes that do not decode as `V` are
    /// a decode error.
    pub fn get<K: Codec, V: Codec>(&self, key: &K) -> (r: Result<Option<V>, Error>)
        ensures
            match r {
                Ok(Some(v)) => self@.contains_key(K::encv(key@)) && V::decv(self@[K::encv(key@)])
                    == Some(v@),
                Ok(None) => !self@.contains_key(K::encv(key@)),
                Err(e) => e is SledError || (e is BincodeError && self@.contains_key(K::encv(key@))
                    && V::decv(self@[K::encv(key@)]) is None),
            },
    {
        let kb = key.encode();
        match store::tree_get(&self.inner_tree, kb.as_slice()) {
            Ok(Some(bytes)) => match V::decode(bytes.as_slice()) {
                Some(v) => Ok(Some(v)),
                None => Err(decode_mismatch_error()),
            },
            Ok(None) => Ok(None),
            Err(e) => Err(e),
        }
    }

    /// Maps the key to the value and returns the previous value, decoded as
    /// the new value's type: callers must keep one value type per key.
    /// The store is updated even when the previous value fails to decode.
    pub fn insert<K: Codec, V: Codec>(&mut self, key: &K, value: &V) -> (r: Result<
        Option<V>,
        Error,
    >)
        ensures
            match r {
                Ok(prev) => {
                    &&& final(self)@ == old(self)@.insert(K::encv(key@), V::encv(value@))
                    &&& match prev {
                        Some(p) => old(self)@.contains_key(K::encv(key@)) && V::decv(
                            old(self)@[K::encv(key@)],
                        ) == Some(p@),
                        None => !old(self)@.contains_key(K::encv(key@)),
                    }
                },
                Err(e) => e is SledError || (e is BincodeError && final(self)@ == old(self)@.insert(
                    K::encv(key@),
                    V::encv(value@),
                ) && old(self)@.contains_key(K::encv(key@)) && V::decv(old(self)@[K::encv(key@)])
                    is None),
            },
    {
        let kb = key.encode();
        let vb = value.encode();
        match store::tree_insert(&mut self.inner_tree, kb.as_slice(), vb.as_slice()) {
            Ok(Some(prev_bytes)) => match V::decode(prev_bytes.as_slice()) {
                Some(p) => Ok(Some(p)),
                None => Err(decode_mismatch_error()),
            },
            Ok(None) => Ok(None),
            Err(e) => Err(e),
        }
    }

    /// Unmaps the key and returns the value that was stored, decoded as
    /// `V`.  The store is updated even when that value fails to decode.
    pub fn remove<K: Codec, V: Codec>(&mut self, key: &K) -> (r: Result<Option<V>, Error>)
        ensures
            match r {
                Ok(prev) => {
                    &&& final(self)@ == old(self)@.remove(K::encv(key@))
                    &&& match prev {
                        Some(p) => old(self)@.contains_key(K::encv(key@)) && V::decv(
                            old(self)@[K::encv(key@)],
                        ) == Some(p@),
                        None => !old(self)@.contains_key(K::encv(key@)),
                    }
                },
                Err(e) => e is SledError || (e is BincodeError && final(self)@ == old(self)@.remove(
                    K::encv(key@),
                ) && old(self)@.contains_key(K::encv(key@)) && V::decv(old(self)@[K::encv(key@)])
                    is None),
            },
    {
        let kb = key.encode();
        match store::tree_remove(&mut self.inner_tree, kb.as_slice()) {
            Ok(Some(prev_bytes)) => match V::decode(prev_bytes.as_slice()) {
                Some(p) => Ok(Some(p)),
                None => Err(decode_mismatch_error()),
            },
            Ok(None) => Ok(None),
            Err(e) => Err(e),
        }
    }

    /// Whether the encoded key is present, whatever type its value bytes
    /// decode as.
    pub fn contains_key<K: Codec>(&self, key: &K) -> (r: Result<bool, Error>)
        ensures
            match r {
                Ok(b) => b == self@.contains_key(K::encv(key@)),
                Err(e) => e is SledError,
            },
    {
        let kb = key.encode();
        store::tree_contains_key(&self.inner_tree, kb.as_slice())
    }

    /// The number of entries of the whole tree, regardless of type.
    pub fn len(&self) -> (r: usize)
        ensures
            r == self@.dom().len(),
    {
        store::tree_len(&self.inner_tree)
    }

    /// The entry with the least key by byte order, decoded as `(K, V)`;
    /// `Ok(None)` from an empty tree, an error if either side fails to
    /// decode.
    pub fn first<K: Codec, V: Codec>(&self) -> (r: Result<Option<(K, V)>, Error>)
        ensures
            match r {
                Ok(Some(kv)) => exists|kb: Seq<u8>|
                    {
                        &&& #[trigger] self@.contains_key(kb)
                        &&& forall|k2: Seq<u8>| #[trigger] self@.dom().contains(k2) ==> lex_le(kb, k2)
                        &&& K::decv(kb) == Some(kv.0@)
                        &&& V::decv(self@[kb]) == Some(kv.1@)
                    },
                Ok(None) => self@.dom() == Set::<Seq<u8>>::empty(),
                Err(e) => e is SledError || (e is BincodeError && exists|kb: Seq<u8>|
                    {
                        &&& #[trigger] self@.contains_key(kb)
                        &&& forall|k2: Seq<u8>| #[trigger] self@.dom().contains(k2) ==> lex_le(kb, k2)
                        &&& (K::decv(kb) is None || V::decv(self@[kb]) is None)
                    }),
            },
    {
        match store::tree_first(&self.inner_tree) {
            Ok(Some(kv_bytes)) => {
                let (kb, vb) = kv_bytes;
                match K::decode(kb.as_slice()) {
                    Some(k) => match V::decode(vb.as_slice()) {
                        Some(v) => {
                            proof {
                                assert(self@.contains_key(kb@));
                            }
                            Ok(Some((k, v)))
                        },
                        None => {
                            proof {
                                assert(self@.contains_key(kb@));
                            }
                            Err(decode_mismatch_error())
                        },
                    },
                    None => {
                        proof {
                            assert(self@.contains_key(kb@));
                        }
                        Err(decode_mismatch_error())
                    },
                }
            },
            Ok(None) => Ok(None),
            Err(e) => Err(e),
        }
    }

    /// The entry with the greatest key by byte order, decoded as `(K, V)`;
    /// `Ok(None)` from an empty tree, an error if either side fails to
    /// decode.
    pub fn last<K: Codec, V: Codec>(&self) -> (r: Result<Option<(K, V)>, Error>)
        ensures
            match r {
                Ok(Some(kv)) => exists|kb: Seq<u8>|
                    {
                        &&& #[trigger] self@.contains_key(kb)
                        &&& forall|k2: Seq<u8>| #[trigger] self@.dom().contains(k2) ==> lex_le(k2, kb)
                        &&& K::decv(kb) == Some(kv.0@)
                        &&& V::decv(self@[kb]) == Some(kv.1@)
                    },
                Ok(None) => self@.dom() == Set::<Seq<u8>>::empty(),
                Err(e) => e is SledError || (e is BincodeError && exists|kb: Seq<u8>|
                    {
                        &&& #[trigger] self@.contains_key(kb)
                        &&& forall|k2: Seq<u8>| #[trigger] self@.dom().contains(k2) ==> lex_le(k2, kb)
                        &&& (K::decv(kb) is None || V::decv(self@[kb]) is None)
                    }),
            },
    {
        match store::tree_last(&self.inner_tree) {
            Ok(Some(kv_bytes)) => {
                let (kb, vb) = kv_bytes;
                match K::decode(kb.as_slice()) {
                    Some(k) => match V::decode(vb.as_slice()) {
                        Some(v) => {
                            proof {
                                assert(self@.contains_key(kb@));
                            }
                            Ok(Some((k, v)))
                        },
                        None => {
                            proof {
                                assert(self@.contains_key(kb@));
                            }
                            Err(decode_mismatch_error())
                        },
                    },
                    None => {
                        proof {
                            assert(self@.contains_key(kb@));
                        }
                        Err(decode_mismatch_error())
                    },
                }
            },
            Ok(None) => Ok(None),
            Err(e) => Err(e),
        }
    }

    /// Atomically removes and returns the entry with the greatest key by
    /// byte order, decoded as `(K, V)`.  The entry leaves the tree even
    /// when one of its sides then fails to decode.
    pub fn pop_max<K: Codec, V: Codec>(&mut self) -> (r: Result<Option<(K, V)>, Error>)
        ensures
            match r {
                Ok(Some(kv)) => exists|kb: Seq<u8>|
                    {
                        &&& #[trigger] old(self)@.contains_key(kb)
                        &&& forall|k2: Seq<u8>|
                            #[trigger] old(self)@.dom().contains(k2) ==> lex_le(k2, kb)
                        &&& K::decv(kb) == Some(kv.0@)
                        &&& V::decv(old(self)@[kb]) == Some(kv.1@)
                        &&& final(self)@ == old(self)@.remove(kb)
                    },
                Ok(None) => old(self)@.dom() == Set::<Seq<u8>>::empty() && final(self)@ == old(
                    self,
                )@,
                Err(e) => e is SledError || (e is BincodeError && exists|kb: Seq<u8>|
                    {
                        &&& #[trigger] old(self)@.contains_key(kb)
                        &&& forall|k2: Seq<u8>|
                            #[trigger] old(self)@.dom().contains(k2) ==> lex_le(k2, kb)
                        &&& (K::decv(kb) is None || V::decv(old(self)@[kb]) is None)
                        &&& final(self)@ == old(self)@.remove(kb)
                    }),
            },
    {
        match store::tree_pop_max(&mut self.inner_tree) {
            Ok(Some(kv_bytes)) => {
                let (kb, vb) = kv_bytes;
                match K::decode(kb.as_slice()) {
                    Some(k) => match V::decode(vb.as_slice()) {
                        Some(v) => {
                            proof {
                                assert(old(self)@.contains_key(kb@));
                            }
                            Ok(Some((k, v)))
                        },
                        None => {
                            proof {
                                assert(old(self)@.contains_key(kb@));
                            }
                            Err(decode_mismatch_error())
                        },
                    },
                    None => {
                        proof {
                            assert(old(self)@.contains_key(kb@));
                        }
                        Err(decode_mismatch_error())
                    },
                }
            },
            Ok(None) => Ok(None),
            Err(e) => Err(e),
        }
    }

    /// Removes every entry of the tree, regardless of type.
    pub fn clear(&mut self) -> (r: Result<(), Error>)
        ensures
            match r {
                Ok(u) => final(self)@ == Map::<Seq<u8>, Seq<u8>>::empty(),
                Err(e) => e is SledError,
            },
    {
        store::tree_clear(&mut self.inner_tree)
    }

    /// Drains a byte-range query, decoding each entry as `(K, V)` and
    /// skipping entries that do not decode; a store failure is propagated.
    fn collect_range<K: Codec, V: Codec>(
        &self,
        lo: &RangeBound<Vec<u8>>,
        hi: &RangeBound<Vec<u8>>,
    ) -> (r: Result<Vec<(K, V)>, Error>)
        ensures
            match r {
                Ok(v) => {
                    let sub = restrict_range(self@, lo@, hi@);
                    &&& entries_match(sorted_entries(sub), sub)
                    &&& pair_views(v@) == decoded_pairs::<K, V>(sorted_entries(sub))
                },
                Err(e) => e is SledError,
            },
    {
        let ghost sub = restrict_range(self@, lo@, hi@);
        let mut it = store::tree_range(&self.inner_tree, lo, hi);
        let ghost full = iter_entries(it);
        let mut out: Vec<(K, V)> = Vec::new();
        let ghost mut done: Seq<(Seq<u8>, Seq<u8>)> = Seq::empty();
        proof {
            assert(full =~= done + iter_entries(it));
        }
        loop
            invariant
                entries_match(full, sub),
                full == done + iter_entries(it),
                pair_views(out@) == decoded_pairs::<K, V>(done),
            ensures
                iter_entries(it).len() == 0,
                full == done + iter_entries(it),
                pair_views(out@) == decoded_pairs::<K, V>(done),
            decreases iter_entries(it).len(),
        {
            match store::iter_next(&mut it) {
                None => { break ; },
                Some(res) => match res {
                    Ok(kv) => {
                        let (kb, vb) = kv;
                        let ghost prev_out = out@;
                        let ghost prev_done = done;
                        match K::decode(kb.as_slice()) {
                            Some(k) => match V::decode(vb.as_slice()) {
                                Some(v) => {
                                    out.push((k, v));
                                },
                                None => {},
                            },
                            None => {},
                        }
                        proof {
                            done = done.push((kb@, vb@));
                            assert(done.drop_last() =~= prev_done);
                            assert(full =~= done + iter_entries(it));
                            assert(pair_views(out@) =~= decoded_pairs::<K, V>(done));
                        }
                    },
                    Err(e) => {
                        return Err(e);
                    },
                },
            }
        }
        proof {
            assert(done =~= full);
            assert(entries_match(full, sub));
            lemma_entries_match_unique(sorted_entries(sub), full, sub);
        }
        Ok(out)
    }

    /// Every entry of the tree in ascending byte order of the keys, each
    /// decoded as `(K, V)`; entries that do not decode as the requested
    /// types are silently skipped, a store failure is propagated.
    pub fn iter<K: Codec, V: Codec>(&self) -> (r: Result<Vec<(K, V)>, Error>)
        ensures
            match r {
                Ok(v) => {
                    &&& entries_match(sorted_entries(self@), self@)
                    &&& pair_views(v@) == decoded_pairs::<K, V>(sorted_entries(self@))
                },
                Err(e) => e is SledError,
            },
    {
        let lo: RangeBound<Vec<u8>> = RangeBound::Unbounded;
        let hi: RangeBound<Vec<u8>> = RangeBound::Unbounded;
        let r = self.collect_range::<K, V>(&lo, &hi);
        proof {
            crate::range::lemma_restrict_unbounded(self@);
        }
        r
    }

    /// The entries whose keys lie within the translated bounds, in
    /// ascending byte order, decoded as `(K, V)` with the same
    /// skip-on-decode-failure policy as `iter`.
    pub fn range<K: Codec, V: Codec>(&self, start: RangeBound<K>, end: RangeBound<K>) -> (r:
        Result<Vec<(K, V)>, Error>)
        ensures
            match r {
                Ok(v) => {
                    let sub = restrict_range(
                        self@,
                        encoded_bound::<K>(start@),
                        encoded_bound::<K>(end@),
                    );
                    &&& entries_match(sorted_entries(sub), sub)
                    &&& pair_views(v@) == decoded_pairs::<K, V>(sorted_entries(sub))
                },
                Err(e) => e is SledError,
            },
    {
        let lo = translate_bound(&start);
        let hi = translate_bound(&end);
        self.collect_range::<K, V>(&lo, &hi)
    }

    /// Like `range`, but the bounds are raw key bytes and each yielded key
    /// is returned as its raw bytes unconverted; only the value is decoded,
    /// and entries whose value fails to decode are skipped.
    pub fn range_key_bytes<V: Codec>(
        &self,
        start: RangeBound<Vec<u8>>,
        end: RangeBound<Vec<u8>>,
    ) -> (r: Result<Vec<(Vec<u8>, V)>, Error>)
        ensures
            match r {
                Ok(v) => {
                    let sub = restrict_range(self@, start@, end@);
                    &&& entries_match(sorted_entries(sub), sub)
                    &&& pair_views(v@) == decoded_values::<V>(sorted_entries(sub))
                },
                Err(e) => e is SledError,
            },
    {
        let ghost sub = restrict_range(self@, start@, end@);
        let mut it = store::tree_range(&self.inner_tree, &start, &end);
        let ghost full = iter_entries(it);
        let mut out: Vec<(Vec<u8>, V)> = Vec::new();
        let ghost mut done: Seq<(Seq<u8>, Seq<u8>)> = Seq::empty();
        proof {
            assert(full =~= done + iter_entries(it));
        }
        loop
            invariant
                entries_match(full, sub),
                full == done + iter_entries(it),
                pair_views(out@) == decoded_values::<V>(done),
            ensures
                iter_entries(it).len() == 0,
                full == done + iter_entries(it),
                pair_views(out@) == decoded_values::<V>(done),
            decreases iter_entries(it).len(),
        {
            match store::iter_next(&mut it) {
                None => { break ; },
                Some(res) => match res {
                    Ok(kv) => {
                        let (kb, vb) = kv;
                        let ghost prev_done = done;
                        let ghost kbv = kb@;
                        match V::decode(vb.as_slice()) {
                            Some(v) => {
                                out.push((kb, v));
                            },
                            None => {},
                        }
                        proof {
                            done = done.push((kbv, vb@));
                            assert(done.drop_last() =~= prev_done);
                            assert(full =~= done + iter_entries(it));
                            assert(pair_views(out@) =~= decoded_values::<V>(done));
                        }
                    },
                    Err(e) => {
                        return Err(e);
                    },
                },
            }
        }
        proof {
            assert(done =~= full);
            lemma_entries_match_unique(sorted_entries(sub), full, sub);
        }
        Ok(out)
    }

    /// Returns the stored value for the key, or computes `init_func`,
    /// stores it, and returns it.  A read followed by a write, with no
    /// atomicity between them beyond the store's own.
    pub fn get_or_init<K: Codec, V: Codec, F: FnOnce() -> V>(
        &mut self,
        key: K,
        init_func: F,
    ) -> (r: Result<Option<V>, Error>)
        requires
            call_requires(init_func, ()),
        ensures
            match r {
                Ok(opt) => match opt {
                    Some(v) => if old(self)@.contains_key(K::encv(key@)) {
                        final(self)@ == old(self)@ && V::decv(old(self)@[K::encv(key@)]) == Some(
                            v@,
                        )
                    } else {
                        call_ensures(init_func, (), v) && final(self)@ == old(self)@.insert(
                            K::encv(key@),
                            V::encv(v@),
                        )
                    },
                    None => false,
                },
                Err(e) => e is SledError || e is BincodeError,
            },
    {
        match self.get::<K, V>(&key) {
            Ok(Some(v)) => Ok(Some(v)),
            Ok(None) => {
                let value = init_func();
                match self.insert(&key, &value) {
                    Ok(prev) => Ok(Some(value)),
                    Err(e) => Err(e),
                }
            },
            Err(e) => Err(e),
        }
    }
}

/// A type-strict tree over the library's codec: one key type and one value
/// type, bound at construction for the lifetime of the handle.  It forwards
/// every operation to [`RelaxedTree`] with the bound types fixed, so it
/// adds no guarantee about what bytes other handles may have written to the
/// same tree — only this handle's call sites can no longer mix types.
pub struct BincodeTree<K: Codec, V: Codec> {
    inner_tree: RelaxedTree,
    key_type: core::marker::PhantomData<K>,
    value_type: core::marker::PhantomData<V>,
}

impl<K: Codec, V: Codec> View for BincodeTree<K, V> {
    type V = Map<Seq<u8>, Seq<u8>>;

    closed spec fn view(&self) -> Map<Seq<u8>, Seq<u8>> {
        self.inner_tree@
    }
}

impl<K: Codec, V: Codec> BincodeTree<K, V> {
    /// Wraps a tree handle of the store, pinning the key and value types.
    pub fn new(tree: sled::Tree) -> (r: Self)
        ensures
            r@ == tree_entries(tree),
    {
        BincodeTree {
            inner_tree: RelaxedTree::new(tree),
            key_type: core::marker::PhantomData,
            value_type: core::marker::PhantomData,
        }
    }

    /// As [`RelaxedTree::get`], with the bound types.
    pub fn get(&self, key: &K) -> (r: Result<Option<V>, Error>)
        ensures
            match r {
                Ok(Some(v)) => self@.contains_key(K::encv(key@)) && V::decv(self@[K::encv(key@)])
                    == Some(v@),
                Ok(None) => !self@.contains_key(K::encv(key@)),
                Err(e) => e is SledError || (e is BincodeError && self@.contains_key(K::encv(key@))
                    && V::decv(self@[K::encv(key@)]) is None),
            },
    {
        self.inner_tree.get::<K, V>(key)
    }

    /// As [`RelaxedTree::get_or_init`], with the bound types.
    pub fn get_or_init<F: FnOnce() -> V>(&mut self, key: K, init_func: F) -> (r: Result<
        Option<V>,
        Error,
    >)
        requires
            call_requires(init_func, ()),
        ensures
            match r {
                Ok(opt) => match opt {
                    Some(v) => if old(self)@.contains_key(K::encv(key@)) {
                        final(self)@ == old(self)@ && V::decv(old(self)@[K::encv(key@)]) == Some(
                            v@,
                        )
                    } else {
                        call_ensures(init_func, (), v) && final(self)@ == old(self)@.insert(
                            K::encv(key@),
                            V::encv(v@),
                        )
                    },
                    None => false,
                },
                Err(e) => e is SledError || e is BincodeError,
            },
    {
        self.inner_tree.get_or_init(key, init_func)
    }

    /// As [`RelaxedTree::insert`], with the bound types.
    pub fn insert(&mut self, key: &K, value: &V) -> (r: Result<Option<V>, Error>)
        ensures
            match r {
                Ok(prev) => {
                    &&& final(self)@ == old(self)@.insert(K::encv(key@), V::encv(value@))
                    &&& match prev {
                        Some(p) => old(self)@.contains_key(K::encv(key@)) && V::decv(
                            old(self)@[K::encv(key@)],
                        ) == Some(p@),
                        None => !old(self)@.contains_key(K::encv(key@)),
                    }
                },
                Err(e) => e is SledError || (e is BincodeError && final(self)@ == old(self)@.insert(
                    K::encv(key@),
                    V::encv(value@),
                ) && old(self)@.contains_key(K::encv(key@)) && V::decv(old(self)@[K::encv(key@)])
                    is None),
            },
    {
        self.inner_tree.insert(key, value)
    }

    /// As [`RelaxedTree::first`], with the bound types.
    pub fn first(&self) -> (r: Result<Option<(K, V)>, Error>)
        ensures
            match r {
                Ok(Some(kv)) => exists|kb: Seq<u8>|
                    {
                        &&& #[trigger] self@.contains_key(kb)
                        &&& forall|k2: Seq<u8>| #[trigger] self@.dom().contains(k2) ==> lex_le(kb, k2)
                        &&& K::decv(kb) == Some(kv.0@)
                        &&& V::decv(self@[kb]) == Some(kv.1@)
                    },
                Ok(None) => self@.dom() == Set::<Seq<u8>>::empty(),
                Err(e) => e is SledError || (e is BincodeError && exists|kb: Seq<u8>|
                    {
                        &&& #[trigger] self@.contains_key(kb)
                        &&& forall|k2: Seq<u8>| #[trigger] self@.dom().contains(k2) ==> lex_le(kb, k2)
                        &&& (K::decv(kb) is None || V::decv(self@[kb]) is None)
                    }),
            },
    {
        let r = self.inner_tree.first::<K, V>();
        proof {
            match &r {
                Ok(Some(kv)) => {
                    let kb = choose|kb: Seq<u8>|
                        {
                            &&& #[trigger] self.inner_tree@.contains_key(kb)
                            &&& forall|k2: Seq<u8>|
                                #[trigger] self.inner_tree@.dom().contains(k2) ==> lex_le(kb, k2)
                            &&& K::decv(kb) == Some(kv.0@)
                            &&& V::decv(self.inner_tree@[kb]) == Some(kv.1@)
                        };
                    assert(self@.contains_key(kb));
                },
                Err(e) => {
                    if *e is BincodeError {
                        let kb = choose|kb: Seq<u8>|
                            {
                                &&& #[trigger] self.inner_tree@.contains_key(kb)
                                &&& forall|k2: Seq<u8>|
                                    #[trigger] self.inner_tree@.dom().contains(k2) ==> lex_le(
                                        kb,
                                        k2,
                                    )
                                &&& (K::decv(kb) is None || V::decv(self.inner_tree@[kb]) is None)
                            };
                        assert(self@.contains_key(kb));
                    }
                },
                _ => {},
            }
        }
        r
    }

    /// As [`RelaxedTree::last`], with the bound types.
    pub fn last(&self) -> (r: Result<Option<(K, V)>, Error>)
        ensures
            match r {
                Ok(Some(kv)) => exists|kb: Seq<u8>|
                    {
                        &&& #[trigger] self@.contains_key(kb)
                        &&& forall|k2: Seq<u8>| #[trigger] self@.dom().contains(k2) ==> lex_le(k2, kb)
                        &&& K::decv(kb) == Some(kv.0@)
                        &&& V::decv(self@[kb]) == Some(kv.1@)
                    },
                Ok(None) => self@.dom() == Set::<Seq<u8>>::empty(),
                Err(e) => e is SledError || (e is BincodeError && exists|kb: Seq<u8>|
                    {
                        &&& #[trigger] self@.contains_key(kb)
                        &&& forall|k2: Seq<u8>| #[trigger] self@.dom().contains(k2) ==> lex_le(k2, kb)
                        &&& (K::decv(kb) is None || V::decv(self@[kb]) is None)
                    }),
            },
    {
        let r = self.inner_tree.last::<K, V>();
        proof {
            match &r {
                Ok(Some(kv)) => {
                    let kb = choose|kb: Seq<u8>|
                        {
                            &&& #[trigger] self.inner_tree@.contains_key(kb)
                            &&& forall|k2: Seq<u8>|
                                #[trigger] self.inner_tree@.dom().contains(k2) ==> lex_le(k2, kb)
                            &&& K::decv(kb) == Some(kv.0@)
                            &&& V::decv(self.inner_tree@[kb]) == Some(kv.1@)
                        };
                    assert(self@.contains_key(kb));
                },
                Err(e) => {
                    if *e is BincodeError {
                        let kb = choose|kb: Seq<u8>|
                            {
                                &&& #[trigger] self.inner_tree@.contains_key(kb)
                                &&& forall|k2: Seq<u8>|
                                    #[trigger] self.inner_tree@.dom().contains(k2) ==> lex_le(
                                        k2,
                                        kb,
                                    )
                                &&& (K::decv(kb) is None || V::decv(self.inner_tree@[kb]) is None)
                            };
                        assert(self@.contains_key(kb));
                    }
                },
                _ => {},
            }
        }
        r
    }

    /// As [`RelaxedTree::pop_max`], with the bound types.
    pub fn pop_max(&mut self) -> (r: Result<Option<(K, V)>, Error>)
        ensures
            match r {
                Ok(Some(kv)) => exists|kb: Seq<u8>|
                    {
                        &&& #[trigger] old(self)@.contains_key(kb)
                        &&& forall|k2: Seq<u8>|
                            #[trigger] old(self)@.dom().contains(k2) ==> lex_le(k2, kb)
                        &&& K::decv(kb) == Some(kv.0@)
                        &&& V::decv(old(self)@[kb]) == Some(kv.1@)
                        &&& final(self)@ == old(self)@.remove(kb)
                    },
                Ok(None) => old(self)@.dom() == Set::<Seq<u8>>::empty() && final(self)@ == old(
                    self,
                )@,
                Err(e) => e is SledError || (e is BincodeError && exists|kb: Seq<u8>|
                    {
                        &&& #[trigger] old(self)@.contains_key(kb)
                        &&& forall|k2: Seq<u8>|
                            #[trigger] old(self)@.dom().contains(k2) ==> lex_le(k2, kb)
                        &&& (K::decv(kb) is None || V::decv(old(self)@[kb]) is None)
                        &&& final(self)@ == old(self)@.remove(kb)
                    }),
            },
    {
        let r = self.inner_tree.pop_max::<K, V>();
        proof {
            match &r {
                Ok(Some(kv)) => {
                    let kb = choose|kb: Seq<u8>|
                        {
                            &&& #[trigger] old(self).inner_tree@.contains_key(kb)
                            &&& forall|k2: Seq<u8>|
                                #[trigger] old(self).inner_tree@.dom().contains(k2) ==> lex_le(
                                    k2,
                                    kb,
                                )
                            &&& K::decv(kb) == Some(kv.0@)
                            &&& V::decv(old(self).inner_tree@[kb]) == Some(kv.1@)
                            &&& self.inner_tree@ == old(self).inner_tree@.remove(kb)
                        };
                    assert(old(self)@.contains_key(kb));
                },
                Err(e) => {
                    if *e is BincodeError {
                        let kb = choose|kb: Seq<u8>|
                            {
                                &&& #[trigger] old(self).inner_tree@.contains_key(kb)
                                &&& forall|k2: Seq<u8>|
                                    #[trigger] old(self).inner_tree@.dom().contains(k2) ==> lex_le(
                                        k2,
                                        kb,
                                    )
                                &&& (K::decv(kb) is None || V::decv(old(self).inner_tree@[kb])
                                    is None)
                                &&& self.inner_tree@ == old(self).inner_tree@.remove(kb)
                            };
                        assert(old(self)@.contains_key(kb));
                    }
                },
                _ => {},
            }
        }
        r
    }

    /// As [`RelaxedTree::iter`], with the bound types.
    pub fn iter(&self) -> (r: Result<Vec<(K, V)>, Error>)
        ensures
            match r {
                Ok(v) => {
                    &&& entries_match(sorted_entries(self@), self@)
                    &&& pair_views(v@) == decoded_pairs::<K, V>(sorted_entries(self@))
                },
                Err(e) => e is SledError,
            },
    {
        self.inner_tree.iter::<K, V>()
    }

    /// As [`RelaxedTree::range_key_bytes`], with the bound value type.
    pub fn range_key_bytes(&self, start: RangeBound<Vec<u8>>, end: RangeBound<Vec<u8>>) -> (r:
        Result<Vec<(Vec<u8>, V)>, Error>)
        ensures
            match r {
                Ok(v) => {
                    let sub = restrict_range(self@, start@, end@);
                    &&& entries_match(sorted_entries(sub), sub)
                    &&& pair_views(v@) == decoded_values::<V>(sorted_entries(sub))
                },
                Err(e) => e is SledError,
            },
    {
        self.inner_tree.range_key_bytes::<V>(start, end)
    }

    /// As [`RelaxedTree::range`], with the bound types.
    pub fn range(&self, start: RangeBound<K>, end: RangeBound<K>) -> (r: Result<
        Vec<(K, V)>,
        Error,
    >)
        ensures
            match r {
                Ok(v) => {
                    let sub = restrict_range(
                        self@,
                        encoded_bound::<K>(start@),
                        encoded_bound::<K>(end@),
                    );
                    &&& entries_match(sorted_entries(sub), sub)
                    &&& pair_views(v@) == decoded_pairs::<K, V>(sorted_entries(sub))
                },
                Err(e) => e is SledError,
            },
    {
        self.inner_tree.range::<K, V>(start, end)
    }

    /// As [`RelaxedTree::clear`].
    pub fn clear(&mut self) -> (r: Result<(), Error>)
        ensures
            match r {
                Ok(u) => final(self)@ == Map::<Seq<u8>, Seq<u8>>::empty(),
                Err(e) => e is SledError,
            },
    {
        self.inner_tree.clear()
    }

    /// As [`RelaxedTree::contains_key`], with the bound key type.
    pub fn contains_key(&self, key: &K) -> (r: Result<bool, Error>)
        ensures
            match r {
                Ok(b) => b == self@.contains_key(K::encv(key@)),
                Err(e) => e is SledError,
            },
    {
        self.inner_tree.contains_key::<K>(key)
    }

    /// As [`RelaxedTree::len`].
    pub fn len(&self) -> (r: usize)
        ensures
            r == self@.dom().len(),
    {
        self.inner_tree.len()
    }

    /// As [`RelaxedTree::remove`], with the bound types.
    pub fn remove(&mut self, key: &K) -> (r: Result<Option<V>, Error>)
        ensures
            match r {
                Ok(prev) => {
                    &&& final(self)@ == old(self)@.remove(K::encv(key@))
                    &&& match prev {
                        Some(p) => old(self)@.contains_key(K::encv(key@)) && V::decv(
                            old(self)@[K::encv(key@)],
                        ) == Some(p@),
                        None => !old(self)@.contains_key(K::encv(key@)),
                    }
                },
                Err(e) => e is SledError || (e is BincodeError && final(self)@ == old(self)@.remove(
                    K::encv(key@),
                ) && old(self)@.contains_key(K::encv(key@)) && V::decv(old(self)@[K::encv(key@)])
                    is None),
            },
    {
        self.inner_tree.remove::<K, V>(key)
    }
}

} // verus!
