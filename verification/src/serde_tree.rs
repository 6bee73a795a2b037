//! The typed trees over the serde-driven codec: the same relaxed/strict
//! pair as [`crate::bincode_tree`], but every value goes through
//! `bincode`'s serde bridge instead of the library's own codec.
//!
//! What those calls return is named, not restated: `serde_enc_u64` and its
//! kin stand for the exact bytes that `bincode::serde::encode_to_vec`
//! produces under the big-endian standard configuration, and the trusted
//! wrappers state only what `bincode` documents — most importantly that
//! decoding an encoding yields the value back.  Everything downstream of
//! the wrappers is verified against those names.

use vstd::prelude::*;

use crate::error::Error;
use crate::order::entries_match;
use crate::order::lex_le;
use crate::order::lemma_entries_match_unique;
use crate::order::sorted_entries;
use crate::range::restrict_range;
use crate::range::RangeBound;
use crate::store::iter_entries;
use crate::store::tree_entries;
use crate::store;

verus! {

/// The bytes that `bincode::serde::encode_to_vec` produces for a `u64`
/// under the big-endian standard configuration.
pub uninterp spec fn serde_enc_u64(v: u64) -> Seq<u8>;

/// What `bincode::serde::decode_from_slice` reads from the front of the
/// given bytes as a `u64`, if anything.
pub uninterp spec fn serde_dec_u64(bytes: Seq<u8>) -> Option<u64>;

/// The bytes that `bincode::serde::encode_to_vec` produces for a byte
/// vector under the big-endian standard configuration.
pub uninterp spec fn serde_enc_bytes(v: Seq<u8>) -> Seq<u8>;

/// What `bincode::serde::decode_from_slice` reads from the front of the
/// given bytes as a byte vector, if anything.
pub uninterp spec fn serde_dec_bytes(bytes: Seq<u8>) -> Option<Seq<u8>>;

/// Relies on `bincode::serde::encode_to_vec` for `u64`: the result depends
/// on the value alone, and decoding it yields the value back.
#[verifier::external_body]
fn serde_encode_u64(v: u64) -> (r: Result<Vec<u8>, Error>)
    ensures
        r matches Ok(b) ==> b@ == serde_enc_u64(v) && serde_dec_u64(b@) == Some(v),
        r matches Err(e) ==> e is BincodeError && e->BincodeError_0 is EncodeError,
{
    match bincode::serde::encode_to_vec(v, bincode::config::standard().with_big_endian()) {
        Ok(b) => Ok(b),
        Err(e) => Err(Error::BincodeError(crate::error::BincodeError::EncodeError(e.to_string()))),
    }
}

/// Relies on `bincode::serde::decode_from_slice` for `u64`: reads one
/// value from the front of the bytes and ignores what follows it.
#[verifier::external_body]
fn serde_decode_u64(bytes: &[u8]) -> (r: Result<u64, Error>)
    ensures
        match r {
            Ok(v) => serde_dec_u64(bytes@) == Some(v),
            Err(e) => serde_dec_u64(bytes@) is None && e is BincodeError && e->BincodeError_0
                is DecodeError,
        },
{
    match bincode::serde::decode_from_slice::<u64, _>(
        bytes,
        bincode::config::standard().with_big_endian(),
    ) {
        Ok((v, _)) => Ok(v),
        Err(e) => Err(Error::BincodeError(crate::error::BincodeError::DecodeError(e.to_string()))),
    }
}

/// Relies on `bincode::serde::encode_to_vec` for `Vec<u8>`: the result
/// depends on the bytes alone, and decoding it yields them back.
#[verifier::external_body]
fn serde_encode_bytes(v: &Vec<u8>) -> (r: Result<Vec<u8>, Error>)
    ensures
        r matches Ok(b) ==> b@ == serde_enc_bytes(v@) && serde_dec_bytes(b@) == Some(v@),
        r matches Err(e) ==> e is BincodeError && e->BincodeError_0 is EncodeError,
{
    match bincode::serde::encode_to_vec(v, bincode::config::standard().with_big_endian()) {
        Ok(b) => Ok(b),
        Err(e) => Err(Error::BincodeError(crate::error::BincodeError::EncodeError(e.to_string()))),
    }
}

/// Relies on `bincode::serde::decode_from_slice` for `Vec<u8>`: reads one
/// value from the front of the bytes and ignores what follows it.
#[verifier::external_body]
fn serde_decode_bytes(bytes: &[u8]) -> (r: Result<Vec<u8>, Error>)
    ensures
        match r {
            Ok(v) => serde_dec_bytes(bytes@) == Some(v@),
            Err(e) => serde_dec_bytes(bytes@) is None && e is BincodeError && e->BincodeError_0
                is DecodeError,
        },
{
    match bincode::serde::decode_from_slice::<Vec<u8>, _>(
        bytes,
        bincode::config::standard().with_big_endian(),
    ) {
        Ok((v, _)) => Ok(v),
        Err(e) => Err(Error::BincodeError(crate::error::BincodeError::DecodeError(e.to_string()))),
    }
}

/// A serde-codec binding: a type whose values the serde bridge encodes to
/// byte strings and decodes back, stated over the type's view.  Encoding
/// may fail, and what an encoding looks like is known only by its name;
/// that decoding inverts encoding is carried by `encode`'s contract.
pub trait SerdeCodec: View + Sized {
    /// The views that a live value of the type can have.
    spec fn valid(v: Self::V) -> bool;

    /// The byte string that encodes a value with view `v`.
    spec fn encv(v: Self::V) -> Seq<u8>;

    /// The view, if any, that the front of `bytes` decodes to.
    spec fn decv(bytes: Seq<u8>) -> Option<Self::V>;

    /// Every live value has a valid view.
    proof fn lemma_valid(&self)
        ensures
            Self::valid(self@),
    ;

    /// Encode a value; on success the bytes are the value's encoding and
    /// decode back to it.
    fn encode(&self) -> (r: Result<Vec<u8>, Error>)
        ensures
            r matches Ok(b) ==> b@ == Self::encv(self@) && Self::decv(b@) == Some(self@),
            r matches Err(e) ==> e is BincodeError && e->BincodeError_0 is EncodeError,
    ;

    /// Decode a value from the front of `bytes`; fails exactly when the
    /// bytes are not an encoding for this type.
    fn decode(bytes: &[u8]) -> (r: Result<Self, Error>)
        ensures
            match r {
                Ok(v) => Self::decv(bytes@) == Some(v@) && Self::valid(v@),
                Err(e) => Self::decv(bytes@) is None && e is BincodeError && e->BincodeError_0
                    is DecodeError,
            },
    ;
}

impl SerdeCodec for u64 {
    open spec fn valid(v: u64) -> bool {
        true
    }

    open spec fn encv(v: u64) -> Seq<u8> {
        serde_enc_u64(v)
    }

    open spec fn decv(bytes: Seq<u8>) -> Option<u64> {
        serde_dec_u64(bytes)
    }

    proof fn lemma_valid(&self) {
    }

    fn encode(&self) -> (r: Result<Vec<u8>, Error>) {
        serde_encode_u64(*self)
    }

    fn decode(bytes: &[u8]) -> (r: Result<u64, Error>) {
        serde_decode_u64(bytes)
    }
}

impl SerdeCodec for Vec<u8> {
    open spec fn valid(v: Seq<u8>) -> bool {
        v.len() <= usize::MAX
    }

    open spec fn encv(v: Seq<u8>) -> Seq<u8> {
        serde_enc_bytes(v)
    }

    open spec fn decv(bytes: Seq<u8>) -> Option<Seq<u8>> {
        serde_dec_bytes(bytes)
    }

    proof fn lemma_valid(&self) {
        assert(vstd::std_specs::vec::spec_vec_len(self) == self@.len());
    }

    fn encode(&self) -> (r: Result<Vec<u8>, Error>) {
        serde_encode_bytes(self)
    }

    fn decode(bytes: &[u8]) -> (r: Result<Vec<u8>, Error>) {
        let r = serde_decode_bytes(bytes);
        proof {
            match &r {
                Ok(v) => {
                    assert(vstd::std_specs::vec::spec_vec_len(v) == v@.len());
                },
                _ => {},
            }
        }
        r
    }
}

/// The view-level pairs that decoding an entry list as `(K, V)` yields
/// under the serde codec; entries that do not decode are skipped.
pub open spec fn decoded_pairs<K: SerdeCodec, V: SerdeCodec>(s: Seq<(Seq<u8>, Seq<u8>)>) -> Seq<
    (K::V, V::V),
>
    decreases s.len(),
{
    if s.len() == 0 {
        Seq::empty()
    } else {
        let rest = decoded_pairs::<K, V>(s.drop_last());
        match (K::decv(s.last().0), V::decv(s.last().1)) {
            (Some(k), Some(v)) => rest.push((k, v)),
            _ => rest,
        }
    }
}

/// Like [`decoded_pairs`], but the raw key bytes are kept and only the
/// value is decoded.
pub open spec fn decoded_values<V: SerdeCodec>(s: Seq<(Seq<u8>, Seq<u8>)>) -> Seq<
    (Seq<u8>, V::V),
>
    decreases s.len(),
{
    if s.len() == 0 {
        Seq::empty()
    } else {
        let rest = decoded_values::<V>(s.drop_last());
        match V::decv(s.last().1) {
            Some(v) => rest.push((s.last().0, v)),
            None => rest,
        }
    }
}

/// The views of a list of typed pairs.
pub open spec fn pair_views<K: View, V: View>(s: Seq<(K, V)>) -> Seq<(K::V, V::V)> {
    s.map_values(|p: (K, V)| (p.0@, p.1@))
}

/// The bound with its value, if present, replaced by that value's serde
/// encoding.
pub open spec fn encoded_bound<K: SerdeCodec>(b: RangeBound<K::V>) -> RangeBound<Seq<u8>> {
    match b {
        RangeBound::Unbounded => RangeBound::Unbounded,
        RangeBound::Inclusive(v) => RangeBound::Inclusive(K::encv(v)),
        RangeBound::Exclusive(v) => RangeBound::Exclusive(K::encv(v)),
    }
}

/// Translates one typed bound to its byte-level form; fails exactly when a
/// present value fails to encode, so a range with any untranslatable bound
/// is rejected whole.
pub fn translate_bound<K: SerdeCodec>(b: &RangeBound<K>) -> (r: Result<RangeBound<Vec<u8>>, Error>)
    ensures
        match r {
            Ok(t) => t@ == encoded_bound::<K>(b@),
            Err(e) => e is BincodeError && e->BincodeError_0 is EncodeError,
        },
{
    match b {
        RangeBound::Unbounded => Ok(RangeBound::Unbounded),
        RangeBound::Inclusive(k) => match k.encode() {
            Ok(kb) => Ok(RangeBound::Inclusive(kb)),
            Err(e) => Err(e),
        },
        RangeBound::Exclusive(k) => match k.encode() {
            Ok(kb) => Ok(RangeBound::Exclusive(kb)),
            Err(e) => Err(e),
        },
    }
}

/// A tree that takes any serde-codec key or value type, chosen per call.
pub struct RelaxedTree {
    inner_tree: sled::Tree,
}

impl View for RelaxedTree {
    type V = Map<Seq<u8>, Seq<u8>>;

    closed spec fn view(&self) -> Map<Seq<u8>, Seq<u8>> {
        tree_entries(self.inner_tree)
    }
}

impl RelaxedTree {
    /// Wraps a tree handle of the store.
    pub fn new(tree: sled::Tree) -> (r: Self)
        ensures
            r@ == tree_entries(tree),
    {
        RelaxedTree { inner_tree: tree }
    }

    /// Looks the key up and decodes the stored value, if any.
    pub fn get<K: SerdeCodec, V: SerdeCodec>(&self, key: &K) -> (r: Result<Option<V>, Error>)
        ensures
            match r {
                Ok(Some(v)) => self@.contains_key(K::encv(key@)) && V::decv(self@[K::encv(key@)])
                    == Some(v@),
                Ok(None) => !self@.contains_key(K::encv(key@)),
                Err(e) => e is SledError || (e is BincodeError && (e->BincodeError_0
                    is EncodeError || (self@.contains_key(K::encv(key@)) && V::decv(
                    self@[K::encv(key@)],
                ) is None))),
            },
    {
        let kb = match key.encode() {
            Ok(kb) => kb,
            Err(e) => {
                return Err(e);
            },
        };
        match store::tree_get(&self.inner_tree, kb.as_slice()) {
            Ok(Some(bytes)) => match V::decode(bytes.as_slice()) {
                Ok(v) => Ok(Some(v)),
                Err(e) => Err(e),
            },
            Ok(None) => Ok(None),
            Err(e) => Err(e),
        }
    }

    /// Maps the key to the value and returns the previous value, decoded
    /// as the new value's type.
    pub fn insert<K: SerdeCodec, V: SerdeCodec>(&mut self, key: &K, value: &V) -> (r: Result<
        Option<V>,
        Error,
    >)
        ensures
            match r {
                Ok(prev) => {
                    &&& final(self)@ == old(self)@.insert(K::encv(key@), V::encv(value@))
                    &&& match prev {
                        Some(p) => old(self)@.contains_key(K::encv(key@)) && V::decv(
                            old(self)@[K::encv(key@)],
                        ) == Some(p@),
                        None => !old(self)@.contains_key(K::encv(key@)),
                    }
                },
                Err(e) => e is SledError || (e is BincodeError && ((e->BincodeError_0
                    is EncodeError && final(self)@ == old(self)@) || (final(self)@ == old(
                    self,
                )@.insert(K::encv(key@), V::encv(value@)) && old(self)@.contains_key(K::encv(key@))
                    && V::decv(old(self)@[K::encv(key@)]) is None))),
            },
    {
        let kb = match key.encode() {
            Ok(kb) => kb,
            Err(e) => {
                return Err(e);
            },
        };
        let vb = match value.encode() {
            Ok(vb) => vb,
            Err(e) => {
                return Err(e);
            },
        };
        match store::tree_insert(&mut self.inner_tree, kb.as_slice(), vb.as_slice()) {
            Ok(Some(prev_bytes)) => match V::decode(prev_bytes.as_slice()) {
                Ok(p) => Ok(Some(p)),
                Err(e) => Err(e),
            },
            Ok(None) => Ok(None),
            Err(e) => Err(e),
        }
    }

    /// Unmaps the key and returns the value that was stored, decoded as
    /// `V`.
    pub fn remove<K: SerdeCodec, V: SerdeCodec>(&mut self, key: &K) -> (r: Result<Option<V>, Error>)
        ensures
            match r {
                Ok(prev) => {
                    &&& final(self)@ == old(self)@.remove(K::encv(key@))
                    &&& match prev {
                        Some(p) => old(self)@.contains_key(K::encv(key@)) && V::decv(
                            old(self)@[K::encv(key@)],
                        ) == Some(p@),
                        None => !old(self)@.contains_key(K::encv(key@)),
                    }
                },
                Err(e) => e is SledError || (e is BincodeError && ((e->BincodeError_0
                    is EncodeError && final(self)@ == old(self)@) || (final(self)@ == old(
                    self,
                )@.remove(K::encv(key@)) && old(self)@.contains_key(K::encv(key@)) && V::decv(
                    old(self)@[K::encv(key@)],
                ) is None))),
            },
    {
        let kb = match key.encode() {
            Ok(kb) => kb,
            Err(e) => {
                return Err(e);
            },
        };
        match store::tree_remove(&mut self.inner_tree, kb.as_slice()) {
            Ok(Some(prev_bytes)) => match V::decode(prev_bytes.as_slice()) {
                Ok(p) => Ok(Some(p)),
                Err(e) => Err(e),
            },
            Ok(None) => Ok(None),
            Err(e) => Err(e),
        }
    }

    /// Whether the encoded key is present.
    pub fn contains_key<K: SerdeCodec>(&self, key: &K) -> (r: Result<bool, Error>)
        ensures
            match r {
                Ok(b) => b == self@.contains_key(K::encv(key@)),
                Err(e) => e is SledError || (e is BincodeError && e->BincodeError_0
                    is EncodeError),
            },
    {
        let kb = match key.encode() {
            Ok(kb) => kb,
            Err(e) => {
                return Err(e);
            },
        };
        store::tree_contains_key(&self.inner_tree, kb.as_slice())
    }

    /// The number of entries of the whole tree, regardless of type.
    pub fn len(&self) -> (r: usize)
        ensures
            r == self@.dom().len(),
    {
        store::tree_len(&self.inner_tree)
    }

    /// Removes every entry of the tree, regardless of type.
    pub fn clear(&mut self) -> (r: Result<(), Error>)
        ensures
            match r {
                Ok(u) => final(self)@ == Map::<Seq<u8>, Seq<u8>>::empty(),
                Err(e) => e is SledError,
            },
    {
        store::tree_clear(&mut self.inner_tree)
    }

    /// The entry with the least key by byte order, decoded as `(K, V)`.
    pub fn first<K: SerdeCodec, V: SerdeCodec>(&self) -> (r: Result<Option<(K, V)>, Error>)
        ensures
            match r {
                Ok(Some(kv)) => exists|kb: Seq<u8>|
                    {
                        &&& #[trigger] self@.contains_key(kb)
                        &&& forall|k2: Seq<u8>| #[trigger] self@.dom().contains(k2) ==> lex_le(kb, k2)
                        &&& K::decv(kb) == Some(kv.0@)
                        &&& V::decv(self@[kb]) == Some(kv.1@)
                    },
                Ok(None) => self@.dom() == Set::<Seq<u8>>::empty(),
                Err(e) => e is SledError || (e is BincodeError && exists|kb: Seq<u8>|
                    {
                        &&& #[trigger] self@.contains_key(kb)
                        &&& forall|k2: Seq<u8>| #[trigger] self@.dom().contains(k2) ==> lex_le(kb, k2)
                        &&& (K::decv(kb) is None || V::decv(self@[kb]) is None)
                    }),
            },
    {
        match store::tree_first(&self.inner_tree) {
            Ok(Some(kv_bytes)) => {
                let (kb, vb) = kv_bytes;
                match K::decode(kb.as_slice()) {
                    Ok(k) => match V::decode(vb.as_slice()) {
                        Ok(v) => {
                            proof {
                                assert(self@.contains_key(kb@));
                            }
                            Ok(Some((k, v)))
                        },
                        Err(e) => {
                            proof {
                                assert(self@.contains_key(kb@));
                            }
                            Err(e)
                        },
                    },
                    Err(e) => {
                        proof {
                            assert(self@.contains_key(kb@));
                        }
                        Err(e)
                    },
                }
            },
            Ok(None) => Ok(None),
            Err(e) => Err(e),
        }
    }

    /// The entry with the greatest key by byte order, decoded as `(K, V)`.
    pub fn last<K: SerdeCodec, V: SerdeCodec>(&self) -> (r: Result<Option<(K, V)>, Error>)
        ensures
            match r {
                Ok(Some(kv)) => exists|kb: Seq<u8>|
                    {
                        &&& #[trigger] self@.contains_key(kb)
                        &&& forall|k2: Seq<u8>| #[trigger] self@.dom().contains(k2) ==> lex_le(k2, kb)
                        &&& K::decv(kb) == Some(kv.0@)
                        &&& V::decv(self@[kb]) == Some(kv.1@)
                    },
                Ok(None) => self@.dom() == Set::<Seq<u8>>::empty(),
                Err(e) => e is SledError || (e is BincodeError && exists|kb: Seq<u8>|
                    {
                        &&& #[trigger] self@.contains_key(kb)
                        &&& forall|k2: Seq<u8>| #[trigger] self@.dom().contains(k2) ==> lex_le(k2, kb)
                        &&& (K::decv(kb) is None || V::decv(self@[kb]) is None)
                    }),
            },
    {
        match store::tree_last(&self.inner_tree) {
            Ok(Some(kv_bytes)) => {
                let (kb, vb) = kv_bytes;
                match K::decode(kb.as_slice()) {
                    Ok(k) => match V::decode(vb.as_slice()) {
                        Ok(v) => {
                            proof {
                                assert(self@.contains_key(kb@));
                            }
                            Ok(Some((k, v)))
                        },
                        Err(e) => {
                            proof {
                                assert(self@.contains_key(kb@));
                            }
                            Err(e)
                        },
                    },
                    Err(e) => {
                        proof {
                            assert(self@.contains_key(kb@));
                        }
                        Err(e)
                    },
                }
            },
            Ok(None) => Ok(None),
            Err(e) => Err(e),
        }
    }

    /// Atomically removes and returns the entry with the greatest key by
    /// byte order, decoded as `(K, V)`.  The entry leaves the tree even
    /// when one of its sides then fails to decode.
    pub fn pop_max<K: SerdeCodec, V: SerdeCodec>(&mut self) -> (r: Result<Option<(K, V)>, Error>)
        ensures
            match r {
                Ok(Some(kv)) => exists|kb: Seq<u8>|
                    {
                        &&& #[trigger] old(self)@.contains_key(kb)
                        &&& forall|k2: Seq<u8>|
                            #[trigger] old(self)@.dom().contains(k2) ==> lex_le(k2, kb)
                        &&& K::decv(kb) == Some(kv.0@)
                        &&& V::decv(old(self)@[kb]) == Some(kv.1@)
                        &&& final(self)@ == old(self)@.remove(kb)
                    },
                Ok(None) => old(self)@.dom() == Set::<Seq<u8>>::empty() && final(self)@ == old(
                    self,
                )@,
                Err(e) => e is SledError || (e is BincodeError && exists|kb: Seq<u8>|
                    {
                        &&& #[trigger] old(self)@.contains_key(kb)
                        &&& forall|k2: Seq<u8>|
                            #[trigger] old(self)@.dom().contains(k2) ==> lex_le(k2, kb)
                        &&& (K::decv(kb) is None || V::decv(old(self)@[kb]) is None)
                        &&& final(self)@ == old(self)@.remove(kb)
                    }),
            },
    {
        match store::tree_pop_max(&mut self.inner_tree) {
            Ok(Some(kv_bytes)) => {
                let (kb, vb) = kv_bytes;
                match K::decode(kb.as_slice()) {
                    Ok(k) => match V::decode(vb.as_slice()) {
                        Ok(v) => {
                            proof {
                                assert(old(self)@.contains_key(kb@));
                            }
                            Ok(Some((k, v)))
                        },
                        Err(e) => {
                            proof {
                                assert(old(self)@.contains_key(kb@));
                            }
                            Err(e)
                        },
                    },
                    Err(e) => {
                        proof {
                            assert(old(self)@.contains_key(kb@));
                        }
                        Err(e)
                    },
                }
            },
            Ok(None) => Ok(None),
            Err(e) => Err(e),
        }
    }

    /// Drains a byte-range query, decoding each entry as `(K, V)` and
    /// skipping entries that do not decode; a store failure is propagated.
    fn collect_range<K: SerdeCodec, V: SerdeCodec>(
        &self,
        lo: &RangeBound<Vec<u8>>,
        hi: &RangeBound<Vec<u8>>,
    ) -> (r: Result<Vec<(K, V)>, Error>)
        ensures
            match r {
                Ok(v) => {
                    let sub = restrict_range(self@, lo@, hi@);
                    &&& entries_match(sorted_entries(sub), sub)
                    &&& pair_views(v@) == decoded_pairs::<K, V>(sorted_entries(sub))
                },
                Err(e) => e is SledError,
            },
    {
        let ghost sub = restrict_range(self@, lo@, hi@);
        let mut it = store::tree_range(&self.inner_tree, lo, hi);
        let ghost full = iter_entries(it);
        let mut out: Vec<(K, V)> = Vec::new();
        let ghost mut done: Seq<(Seq<u8>, Seq<u8>)> = Seq::empty();
        proof {
            assert(full =~= done + iter_entries(it));
        }
        loop
            invariant
                entries_match(full, sub),
                full == done + iter_entries(it),
                pair_views(out@) == decoded_pairs::<K, V>(done),
            ensures
                iter_entries(it).len() == 0,
                full == done + iter_entries(it),
                pair_views(out@) == decoded_pairs::<K, V>(done),
            decreases iter_entries(it).len(),
        {
            match store::iter_next(&mut it) {
                None => { break ; },
                Some(res) => match res {
                    Ok(kv) => {
                        let (kb, vb) = kv;
                        let ghost prev_done = done;
                        match K::decode(kb.as_slice()) {
                            Ok(k) => match V::decode(vb.as_slice()) {
                                Ok(v) => {
                                    out.push((k, v));
                                },
                                Err(dropped) => {},
                            },
                            Err(dropped) => {},
                        }
                        proof {
                            done = done.push((kb@, vb@));
                            assert(done.drop_last() =~= prev_done);
                            assert(full =~= done + iter_entries(it));
                            assert(pair_views(out@) =~= decoded_pairs::<K, V>(done));
                        }
                    },
                    Err(e) => {
                        return Err(e);
                    },
                },
            }
        }
        proof {
            assert(done =~= full);
            lemma_entries_match_unique(sorted_entries(sub), full, sub);
        }
        Ok(out)
    }

    /// Every entry of the tree in ascending byte order of the keys, each
    /// decoded as `(K, V)`; entries that do not decode as the requested
    /// types are silently skipped, a store failure is propagated.
    pub fn iter<K: SerdeCodec, V: SerdeCodec>(&self) -> (r: Result<Vec<(K, V)>, Error>)
        ensures
            match r {
                Ok(v) => {
                    &&& entries_match(sorted_entries(self@), self@)
                    &&& pair_views(v@) == decoded_pairs::<K, V>(sorted_entries(self@))
                },
                Err(e) => e is SledError,
            },
    {
        let lo: RangeBound<Vec<u8>> = RangeBound::Unbounded;
        let hi: RangeBound<Vec<u8>> = RangeBound::Unbounded;
        let r = self.collect_range::<K, V>(&lo, &hi);
        proof {
            crate::range::lemma_restrict_unbounded(self@);
        }
        r
    }

    /// The entries whose keys lie within the translated bounds; the whole
    /// query fails if either bound's value fails to encode.
    pub fn range<K: SerdeCodec, V: SerdeCodec>(
        &self,
        start: RangeBound<K>,
        end: RangeBound<K>,
    ) -> (r: Result<Vec<(K, V)>, Error>)
        ensures
            match r {
                Ok(v) => {
                    let sub = restrict_range(
                        self@,
                        encoded_bound::<K>(start@),
                        encoded_bound::<K>(end@),
                    );
                    &&& entries_match(sorted_entries(sub), sub)
                    &&& pair_views(v@) == decoded_pairs::<K, V>(sorted_entries(sub))
                },
                Err(e) => e is SledError || (e is BincodeError && e->BincodeError_0
                    is EncodeError),
            },
    {
        let lo = match translate_bound(&start) {
            Ok(lo) => lo,
            Err(e) => {
                return Err(e);
            },
        };
        let hi = match translate_bound(&end) {
            Ok(hi) => hi,
            Err(e) => {
                return Err(e);
            },
        };
        self.collect_range::<K, V>(&lo, &hi)
    }

    /// Like `range`, but the bounds are raw key bytes and each yielded key
    /// is returned as its raw bytes unconverted; only the value is
    /// decoded, and entries whose value fails to decode are skipped.
    pub fn range_key_bytes<V: SerdeCodec>(
        &self,
        start: RangeBound<Vec<u8>>,
        end: RangeBound<Vec<u8>>,
    ) -> (r: Result<Vec<(Vec<u8>, V)>, Error>)
        ensures
            match r {
                Ok(v) => {
                    let sub = restrict_range(self@, start@, end@);
                    &&& entries_match(sorted_entries(sub), sub)
                    &&& pair_views(v@) == decoded_values::<V>(sorted_entries(sub))
                },
                Err(e) => e is SledError,
            },
    {
        let ghost sub = restrict_range(self@, start@, end@);
        let mut it = store::tree_range(&self.inner_tree, &start, &end);
        let ghost full = iter_entries(it);
        let mut out: Vec<(Vec<u8>, V)> = Vec::new();
        let ghost mut done: Seq<(Seq<u8>, Seq<u8>)> = Seq::empty();
        proof {
            assert(full =~= done + iter_entries(it));
        }
        loop
            invariant
                entries_match(full, sub),
                full == done + iter_entries(it),
                pair_views(out@) == decoded_values::<V>(done),
            ensures
                iter_entries(it).len() == 0,
                full == done + iter_entries(it),
                pair_views(out@) == decoded_values::<V>(done),
            decreases iter_entries(it).len(),
        {
            match store::iter_next(&mut it) {
                None => { break ; },
                Some(res) => match res {
                    Ok(kv) => {
                        let (kb, vb) = kv;
                        let ghost prev_done = done;
                        let ghost kbv = kb@;
                        match V::decode(vb.as_slice()) {
                            Ok(v) => {
                                out.push((kb, v));
                            },
                            Err(dropped) => {},
                        }
                        proof {
                            done = done.push((kbv, vb@));
                            assert(done.drop_last() =~= prev_done);
                            assert(full =~= done + iter_entries(it));
                            assert(pair_views(out@) =~= decoded_values::<V>(done));
                        }
                    },
                    Err(e) => {
                        return Err(e);
                    },
                },
            }
        }
        proof {
            assert(done =~= full);
            lemma_entries_match_unique(sorted_entries(sub), full, sub);
        }
        Ok(out)
    }

    /// Returns the stored value for the key, or computes `init_func`,
    /// stores it, and returns it.  A read followed by a write, with no
    /// atomicity between them beyond the store's own.
    pub fn get_or_init<K: SerdeCodec, V: SerdeCodec, F: FnOnce() -> V>(
        &mut self,
        key: K,
        init_func: F,
    ) -> (r: Result<Option<V>, Error>)
        requires
            call_requires(init_func, ()),
        ensures
            match r {
                Ok(opt) => match opt {
                    Some(v) => if old(self)@.contains_key(K::encv(key@)) {
                        final(self)@ == old(self)@ && V::decv(old(self)@[K::encv(key@)]) == Some(
                            v@,
                        )
                    } else {
                        call_ensures(init_func, (), v) && final(self)@ == old(self)@.insert(
                            K::encv(key@),
                            V::encv(v@),
                        )
                    },
                    None => false,
                },
                Err(e) => e is SledError || e is BincodeError,
            },
    {
        match self.get::<K, V>(&key) {
            Ok(Some(v)) => Ok(Some(v)),
            Ok(None) => {
                let value = init_func();
                match self.insert(&key, &value) {
                    Ok(prev) => Ok(Some(value)),
                    Err(e) => Err(e),
                }
            },
            Err(e) => Err(e),
        }
    }
}

/// A type-strict tree over the serde codec: one key type and one value
/// type, bound at construction for the lifetime of the handle.  It
/// forwards every operation to the relaxed tree with the bound types
/// fixed; the store still accepts any bytes another handle may write.
pub struct SerdeTree<K: SerdeCodec, V: SerdeCodec> {
    inner_tree: RelaxedTree,
    key_type: core::marker::PhantomData<K>,
    value_type: core::marker::PhantomData<V>,
}

impl<K: SerdeCodec, V: SerdeCodec> View for SerdeTree<K, V> {
    type V = Map<Seq<u8>, Seq<u8>>;

    closed spec fn view(&self) -> Map<Seq<u8>, Seq<u8>> {
        self.inner_tree@
    }
}

impl<K: SerdeCodec, V: SerdeCodec> SerdeTree<K, V> {
    /// Wraps a tree handle of the store, pinning the key and value types.
    pub fn new(tree: sled::Tree) -> (r: Self)
        ensures
            r@ == tree_entries(tree),
    {
        SerdeTree {
            inner_tree: RelaxedTree::new(tree),
            key_type: core::marker::PhantomData,
            value_type: core::marker::PhantomData,
        }
    }

    /// As the relaxed `get`, with the bound types.
    pub fn get(&self, key: &K) -> (r: Result<Option<V>, Error>)
        ensures
            match r {
                Ok(Some(v)) => self@.contains_key(K::encv(key@)) && V::decv(self@[K::encv(key@)])
                    == Some(v@),
                Ok(None) => !self@.contains_key(K::encv(key@)),
                Err(e) => e is SledError || (e is BincodeError && (e->BincodeError_0
                    is EncodeError || (self@.contains_key(K::encv(key@)) && V::decv(
                    self@[K::encv(key@)],
                ) is None))),
            },
    {
        self.inner_tree.get::<K, V>(key)
    }

    /// As the relaxed `get_or_init`, with the bound types.
    pub fn get_or_init<F: FnOnce() -> V>(&mut self, key: K, init_func: F) -> (r: Result<
        Option<V>,
        Error,
    >)
        requires
            call_requires(init_func, ()),
        ensures
            match r {
                Ok(opt) => match opt {
                    Some(v) => if old(self)@.contains_key(K::encv(key@)) {
                        final(self)@ == old(self)@ && V::decv(old(self)@[K::encv(key@)]) == Some(
                            v@,
                        )
                    } else {
                        call_ensures(init_func, (), v) && final(self)@ == old(self)@.insert(
                            K::encv(key@),
                            V::encv(v@),
                        )
                    },
                    None => false,
                },
                Err(e) => e is SledError || e is BincodeError,
            },
    {
        self.inner_tree.get_or_init(key, init_func)
    }

    /// As the relaxed `insert`, with the bound types.
    pub fn insert(&mut self, key: &K, value: &V) -> (r: Result<Option<V>, Error>)
        ensures
            match r {
                Ok(prev) => {
                    &&& final(self)@ == old(self)@.insert(K::encv(key@), V::encv(value@))
                    &&& match prev {
                        Some(p) => old(self)@.contains_key(K::encv(key@)) && V::decv(
                            old(self)@[K::encv(key@)],
                        ) == Some(p@),
                        None => !old(self)@.contains_key(K::encv(key@)),
                    }
                },
                Err(e) => e is SledError || (e is BincodeError && ((e->BincodeError_0
                    is EncodeError && final(self)@ == old(self)@) || (final(self)@ == old(
                    self,
                )@.insert(K::encv(key@), V::encv(value@)) && old(self)@.contains_key(K::encv(key@))
                    && V::decv(old(self)@[K::encv(key@)]) is None))),
            },
    {
        self.inner_tree.insert(key, value)
    }

    /// As the relaxed `first`, with the bound types.
    pub fn first(&self) -> (r: Result<Option<(K, V)>, Error>)
        ensures
            match r {
                Ok(Some(kv)) => exists|kb: Seq<u8>|
                    {
                        &&& #[trigger] self@.contains_key(kb)
                        &&& forall|k2: Seq<u8>| #[trigger] self@.dom().contains(k2) ==> lex_le(kb, k2)
                        &&& K::decv(kb) == Some(kv.0@)
                        &&& V::decv(self@[kb]) == Some(kv.1@)
                    },
                Ok(None) => self@.dom() == Set::<Seq<u8>>::empty(),
                Err(e) => e is SledError || (e is BincodeError && exists|kb: Seq<u8>|
                    {
                        &&& #[trigger] self@.contains_key(kb)
                        &&& forall|k2: Seq<u8>| #[trigger] self@.dom().contains(k2) ==> lex_le(kb, k2)
                        &&& (K::decv(kb) is None || V::decv(self@[kb]) is None)
                    }),
            },
    {
        let r = self.inner_tree.first::<K, V>();
        proof {
            match &r {
                Ok(Some(kv)) => {
                    let kb = choose|kb: Seq<u8>|
                        {
                            &&& #[trigger] self.inner_tree@.contains_key(kb)
                            &&& forall|k2: Seq<u8>|
                                #[trigger] self.inner_tree@.dom().contains(k2) ==> lex_le(kb, k2)
                            &&& K::decv(kb) == Some(kv.0@)
                            &&& V::decv(self.inner_tree@[kb]) == Some(kv.1@)
                        };
                    assert(self@.contains_key(kb));
                },
                Err(e) => {
                    if *e is BincodeError {
                        let kb = choose|kb: Seq<u8>|
                            {
                                &&& #[trigger] self.inner_tree@.contains_key(kb)
                                &&& forall|k2: Seq<u8>|
                                    #[trigger] self.inner_tree@.dom().contains(k2) ==> lex_le(
                                        kb,
                                        k2,
                                    )
                                &&& (K::decv(kb) is None || V::decv(self.inner_tree@[kb]) is None)
                            };
                        assert(self@.contains_key(kb));
                    }
                },
                _ => {},
            }
        }
        r
    }

    /// As the relaxed `last`, with the bound types.
    pub fn last(&self) -> (r: Result<Option<(K, V)>, Error>)
        ensures
            match r {
                Ok(Some(kv)) => exists|kb: Seq<u8>|
                    {
                        &&& #[trigger] self@.contains_key(kb)
                        &&& forall|k2: Seq<u8>| #[trigger] self@.dom().contains(k2) ==> lex_le(k2, kb)
                        &&& K::decv(kb) == Some(kv.0@)
                        &&& V::decv(self@[kb]) == Some(kv.1@)
                    },
                Ok(None) => self@.dom() == Set::<Seq<u8>>::empty(),
                Err(e) => e is SledError || (e is BincodeError && exists|kb: Seq<u8>|
                    {
                        &&& #[trigger] self@.contains_key(kb)
                        &&& forall|k2: Seq<u8>| #[trigger] self@.dom().contains(k2) ==> lex_le(k2, kb)
                        &&& (K::decv(kb) is None || V::decv(self@[kb]) is None)
                    }),
            },
    {
        let r = self.inner_tree.last::<K, V>();
        proof {
            match &r {
                Ok(Some(kv)) => {
                    let kb = choose|kb: Seq<u8>|
                        {
                            &&& #[trigger] self.inner_tree@.contains_key(kb)
                            &&& forall|k2: Seq<u8>|
                                #[trigger] self.inner_tree@.dom().contains(k2) ==> lex_le(k2, kb)
                            &&& K::decv(kb) == Some(kv.0@)
                            &&& V::decv(self.inner_tree@[kb]) == Some(kv.1@)
                        };
                    assert(self@.contains_key(kb));
                },
                Err(e) => {
                    if *e is BincodeError {
                        let kb = choose|kb: Seq<u8>|
                            {
                                &&& #[trigger] self.inner_tree@.contains_key(kb)
                                &&& forall|k2: Seq<u8>|
                                    #[trigger] self.inner_tree@.dom().contains(k2) ==> lex_le(
                                        k2,
                                        kb,
                                    )
                                &&& (K::decv(kb) is None || V::decv(self.inner_tree@[kb]) is None)
                            };
                        assert(self@.contains_key(kb));
                    }
                },
                _ => {},
            }
        }
        r
    }

    /// As the relaxed `pop_max`, with the bound types.
    pub fn pop_max(&mut self) -> (r: Result<Option<(K, V)>, Error>)
        ensures
            match r {
                Ok(Some(kv)) => exists|kb: Seq<u8>|
                    {
                        &&& #[trigger] old(self)@.contains_key(kb)
                        &&& forall|k2: Seq<u8>|
                            #[trigger] old(self)@.dom().contains(k2) ==> lex_le(k2, kb)
                        &&& K::decv(kb) == Some(kv.0@)
                        &&& V::decv(old(self)@[kb]) == Some(kv.1@)
                        &&& final(self)@ == old(self)@.remove(kb)
                    },
                Ok(None) => old(self)@.dom() == Set::<Seq<u8>>::empty() && final(self)@ == old(
                    self,
                )@,
                Err(e) => e is SledError || (e is BincodeError && exists|kb: Seq<u8>|
                    {
                        &&& #[trigger] old(self)@.contains_key(kb)
                        &&& forall|k2: Seq<u8>|
                            #[trigger] old(self)@.dom().contains(k2) ==> lex_le(k2, kb)
                        &&& (K::decv(kb) is None || V::decv(old(self)@[kb]) is None)
                        &&& final(self)@ == old(self)@.remove(kb)
                    }),
            },
    {
        let r = self.inner_tree.pop_max::<K, V>();
        proof {
            match &r {
                Ok(Some(kv)) => {
                    let kb = choose|kb: Seq<u8>|
                        {
                            &&& #[trigger] old(self).inner_tree@.contains_key(kb)
                            &&& forall|k2: Seq<u8>|
                                #[trigger] old(self).inner_tree@.dom().contains(k2) ==> lex_le(
                                    k2,
                                    kb,
                                )
                            &&& K::decv(kb) == Some(kv.0@)
                            &&& V::decv(old(self).inner_tree@[kb]) == Some(kv.1@)
                            &&& self.inner_tree@ == old(self).inner_tree@.remove(kb)
                        };
                    assert(old(self)@.contains_key(kb));
                },
                Err(e) => {
                    if *e is BincodeError {
                        let kb = choose|kb: Seq<u8>|
                            {
                                &&& #[trigger] old(self).inner_tree@.contains_key(kb)
                                &&& forall|k2: Seq<u8>|
                                    #[trigger] old(self).inner_tree@.dom().contains(k2) ==> lex_le(
                                        k2,
                                        kb,
                                    )
                                &&& (K::decv(kb) is None || V::decv(old(self).inner_tree@[kb])
                                    is None)
                                &&& self.inner_tree@ == old(self).inner_tree@.remove(kb)
                            };
                        assert(old(self)@.contains_key(kb));
                    }
                },
                _ => {},
            }
        }
        r
    }

    /// As the relaxed `iter`, with the bound types.
    pub fn iter(&self) -> (r: Result<Vec<(K, V)>, Error>)
        ensures
            match r {
                Ok(v) => {
                    &&& entries_match(sorted_entries(self@), self@)
                    &&& pair_views(v@) == decoded_pairs::<K, V>(sorted_entries(self@))
                },
                Err(e) => e is SledError,
            },
    {
        self.inner_tree.iter::<K, V>()
    }

    /// As the relaxed `range_key_bytes`, with the bound value type.
    pub fn range_key_bytes(&self, start: RangeBound<Vec<u8>>, end: RangeBound<Vec<u8>>) -> (r:
        Result<Vec<(Vec<u8>, V)>, Error>)
        ensures
            match r {
                Ok(v) => {
                    let sub = restrict_range(self@, start@, end@);
                    &&& entries_match(sorted_entries(sub), sub)
                    &&& pair_views(v@) == decoded_values::<V>(sorted_entries(sub))
                },
                Err(e) => e is SledError,
            },
    {
        self.inner_tree.range_key_bytes::<V>(start, end)
    }

    /// As the relaxed `range`, with the bound types.
    pub fn range(&self, start: RangeBound<K>, end: RangeBound<K>) -> (r: Result<
        Vec<(K, V)>,
        Error,
    >)
        ensures
            match r {
                Ok(v) => {
                    let sub = restrict_range(
                        self@,
                        encoded_bound::<K>(start@),
                        encoded_bound::<K>(end@),
                    );
                    &&& entries_match(sorted_entries(sub), sub)
                    &&& pair_views(v@) == decoded_pairs::<K, V>(sorted_entries(sub))
                },
                Err(e) => e is SledError || (e is BincodeError && e->BincodeError_0
                    is EncodeError),
            },
    {
        self.inner_tree.range::<K, V>(start, end)
    }

    /// As the relaxed `clear`.
    pub fn clear(&mut self) -> (r: Result<(), Error>)
        ensures
            match r {
                Ok(u) => final(self)@ == Map::<Seq<u8>, Seq<u8>>::empty(),
                Err(e) => e is SledError,
            },
    {
        self.inner_tree.clear()
    }

    /// As the relaxed `contains_key`, with the bound key type.
    pub fn contains_key(&self, key: &K) -> (r: Result<bool, Error>)
        ensures
            match r {
                Ok(b) => b == self@.contains_key(K::encv(key@)),
                Err(e) => e is SledError || (e is BincodeError && e->BincodeError_0
                    is EncodeError),
            },
    {
        self.inner_tree.contains_key::<K>(key)
    }

    /// As the relaxed `len`.
    pub fn len(&self) -> (r: usize)
        ensures
            r == self@.dom().len(),
    {
        self.inner_tree.len()
    }

    /// As the relaxed `remove`, with the bound types.
    pub fn remove(&mut self, key: &K) -> (r: Result<Option<V>, Error>)
        ensures
            match r {
                Ok(prev) => {
                    &&& final(self)@ == old(self)@.remove(K::encv(key@))
                    &&& match prev {
                        Some(p) => old(self)@.contains_key(K::encv(key@)) && V::decv(
                            old(self)@[K::encv(key@)],
                        ) == Some(p@),
                        None => !old(self)@.contains_key(K::encv(key@)),
                    }
                },
                Err(e) => e is SledError || (e is BincodeError && ((e->BincodeError_0
                    is EncodeError && final(self)@ == old(self)@) || (final(self)@ == old(
                    self,
                )@.remove(K::encv(key@)) && old(self)@.contains_key(K::encv(key@)) && V::decv(
                    old(self)@[K::encv(key@)],
                ) is None))),
            },
    {
        self.inner_tree.remove::<K, V>(key)
    }
}

} // verus!
