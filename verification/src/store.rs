//! The trusted boundary to the underlying ordered byte store.
//!
//! Everything the library knows of `sled` is stated here: the store's types
//! are declared opaquely, a tree's contents are named as a map from key
//! bytes to value bytes, and each store call the library makes stands behind
//! one wrapper whose contract says what `sled`'s source shows of it.  A
//! store failure is carried out as the `SledError` kind of the library's own
//! error type, holding the store's message.
//!
//! The contracts describe a handle that is this library's alone: `sled`
//! shares one tree between every handle opened under the same name, so what
//! a wrapper says of a handle's contents holds as long as nothing else
//! writes to that tree.  Likewise an iterator is described by the entries it
//! will yield from a tree that is not mutated while it lives; the library
//! drains every iterator before handing control back to its caller.

use vstd::prelude::*;

use crate::error::Error;
use crate::order::entries_match;
use crate::order::lex_le;
use crate::range::restrict_range;
use crate::range::RangeBound;

verus! {

/// Declares `sled::Db`, a handle to an open store.
#[verifier::external_type_specification]
#[verifier::external_body]
pub struct ExSledDb(sled::Db);

/// Declares `sled::Tree`, a handle to one named tree of the store.
#[verifier::external_type_specification]
#[verifier::external_body]
pub struct ExSledTree(sled::Tree);

/// Holds a `sled::Iter`, an iterator over a tree's entries.  The iterator
/// type itself cannot be declared to the verifier, so it lives opaquely in
/// this struct; `iter_entries` names what it has yet to yield.
#[verifier::external_body]
pub struct StoreIter {
    inner: sled::Iter,
}

/// What the tree behind the handle holds: its entries, as a map from key
/// bytes to value bytes.
pub uninterp spec fn tree_entries(t: sled::Tree) -> Map<Seq<u8>, Seq<u8>>;

/// What the store's default tree holds, reached through the `sled::Db`
/// handle itself.
pub uninterp spec fn db_entries(d: sled::Db) -> Map<Seq<u8>, Seq<u8>>;

/// The entries an iterator has yet to yield, in ascending key order.
pub uninterp spec fn iter_entries(it: StoreIter) -> Seq<(Seq<u8>, Seq<u8>)>;

/// Relies on `sled::Db::open_tree`: opens the named tree, creating it if
/// absent.  What the tree holds depends on the disk, so nothing is said of
/// its contents.
#[verifier::external_body]
pub fn db_open_tree(db: &sled::Db, name: &str) -> (r: Result<sled::Tree, Error>)
    ensures
        r matches Err(e) ==> e is SledError,
{
    match db.open_tree(name) {
        Ok(t) => Ok(t),
        Err(e) => Err(Error::SledError(e.to_string())),
    }
}

/// Relies on `sled::Tree::get`: looks the key up and returns the stored
/// value's bytes, if any.
#[verifier::external_body]
pub fn tree_get(t: &sled::Tree, key: &[u8]) -> (r: Result<Option<Vec<u8>>, Error>)
    ensures
        match r {
            Ok(Some(v)) => tree_entries(*t).contains_key(key@) && v@ == tree_entries(*t)[key@],
            Ok(None) => !tree_entries(*t).dom().contains(key@),
            Err(e) => e is SledError,
        },
{
    match t.get(key) {
        Ok(Some(v)) => Ok(Some(v.to_vec())),
        Ok(None) => Ok(None),
        Err(e) => Err(Error::SledError(e.to_string())),
    }
}

/// Relies on `sled::Tree::insert`: maps the key to the value and returns
/// the bytes previously stored under it, if any.  On an error nothing is
/// claimed of the tree.
#[verifier::external_body]
pub fn tree_insert(t: &mut sled::Tree, key: &[u8], value: &[u8]) -> (r: Result<
    Option<Vec<u8>>,
    Error,
>)
    ensures
        match r {
            Ok(prev) => {
                &&& tree_entries(*final(t)) == tree_entries(*old(t)).insert(key@, value@)
                &&& match prev {
                    Some(p) => tree_entries(*old(t)).contains_key(key@) && p@ == tree_entries(
                        *old(t),
                    )[key@],
                    None => !tree_entries(*old(t)).dom().contains(key@),
                }
            },
            Err(e) => e is SledError,
        },
{
    match t.insert(key, value) {
        Ok(Some(v)) => Ok(Some(v.to_vec())),
        Ok(None) => Ok(None),
        Err(e) => Err(Error::SledError(e.to_string())),
    }
}

/// Relies on `sled::Tree::remove`: unmaps the key and returns the bytes
/// that were stored under it, if any.  On an error nothing is claimed of
/// the tree.
#[verifier::external_body]
pub fn tree_remove(t: &mut sled::Tree, key: &[u8]) -> (r: Result<Option<Vec<u8>>, Error>)
    ensures
        match r {
            Ok(prev) => {
                &&& tree_entries(*final(t)) == tree_entries(*old(t)).remove(key@)
                &&& match prev {
                    Some(p) => tree_entries(*old(t)).contains_key(key@) && p@ == tree_entries(
                        *old(t),
                    )[key@],
                    None => !tree_entries(*old(t)).dom().contains(key@),
                }
            },
            Err(e) => e is SledError,
        },
{
    match t.remove(key) {
        Ok(Some(v)) => Ok(Some(v.to_vec())),
        Ok(None) => Ok(None),
        Err(e) => Err(Error::SledError(e.to_string())),
    }
}

/// Relies on `sled::Tree::contains_key`.
#[verifier::external_body]
pub fn tree_contains_key(t: &sled::Tree, key: &[u8]) -> (r: Result<bool, Error>)
    ensures
        match r {
            Ok(b) => b == tree_entries(*t).dom().contains(key@),
            Err(e) => e is SledError,
        },
{
    match t.contains_key(key) {
        Ok(b) => Ok(b),
        Err(e) => Err(Error::SledError(e.to_string())),
    }
}

/// Relies on `sled::Tree::len`: the number of entries, by a full scan.
#[verifier::external_body]
pub fn tree_len(t: &sled::Tree) -> (r: usize)
    ensures
        r == tree_entries(*t).dom().len(),
{
    t.len()
}

/// Relies on `sled::Tree::clear`: removes every entry.  On an error nothing
/// is claimed of the tree.
#[verifier::external_body]
pub fn tree_clear(t: &mut sled::Tree) -> (r: Result<(), Error>)
    ensures
        match r {
            Ok(u) => tree_entries(*final(t)) == Map::<Seq<u8>, Seq<u8>>::empty(),
            Err(e) => e is SledError,
        },
{
    match t.clear() {
        Ok(u) => Ok(u),
        Err(e) => Err(Error::SledError(e.to_string())),
    }
}

/// Relies on `sled::Tree::first`: the entry with the least key by byte
/// order, or nothing from an empty tree.
#[verifier::external_body]
pub fn tree_first(t: &sled::Tree) -> (r: Result<Option<(Vec<u8>, Vec<u8>)>, Error>)
    ensures
        match r {
            Ok(Some(kv)) => {
                &&& tree_entries(*t).contains_pair(kv.0@, kv.1@)
                &&& forall|k2: Seq<u8>|
                    #[trigger] tree_entries(*t).dom().contains(k2) ==> lex_le(kv.0@, k2)
            },
            Ok(None) => tree_entries(*t).dom() == Set::<Seq<u8>>::empty(),
            Err(e) => e is SledError,
        },
{
    match t.first() {
        Ok(Some((k, v))) => Ok(Some((k.to_vec(), v.to_vec()))),
        Ok(None) => Ok(None),
        Err(e) => Err(Error::SledError(e.to_string())),
    }
}

/// Relies on `sled::Tree::last`: the entry with the greatest key by byte
/// order, or nothing from an empty tree.
#[verifier::external_body]
pub fn tree_last(t: &sled::Tree) -> (r: Result<Option<(Vec<u8>, Vec<u8>)>, Error>)
    ensures
        match r {
            Ok(Some(kv)) => {
                &&& tree_entries(*t).contains_pair(kv.0@, kv.1@)
                &&& forall|k2: Seq<u8>|
                    #[trigger] tree_entries(*t).dom().contains(k2) ==> lex_le(k2, kv.0@)
            },
            Ok(None) => tree_entries(*t).dom() == Set::<Seq<u8>>::empty(),
            Err(e) => e is SledError,
        },
{
    match t.last() {
        Ok(Some((k, v))) => Ok(Some((k.to_vec(), v.to_vec()))),
        Ok(None) => Ok(None),
        Err(e) => Err(Error::SledError(e.to_string())),
    }
}

/// Relies on `sled::Tree::pop_max`: atomically removes and returns the
/// entry with the greatest key, or nothing from an empty tree.  On an error
/// nothing is claimed of the tree.
#[verifier::external_body]
pub fn tree_pop_max(t: &mut sled::Tree) -> (r: Result<Option<(Vec<u8>, Vec<u8>)>, Error>)
    ensures
        match r {
            Ok(Some(kv)) => {
                &&& tree_entries(*old(t)).contains_pair(kv.0@, kv.1@)
                &&& forall|k2: Seq<u8>|
                    #[trigger] tree_entries(*old(t)).dom().contains(k2) ==> lex_le(k2, kv.0@)
                &&& tree_entries(*final(t)) == tree_entries(*old(t)).remove(kv.0@)
            },
            Ok(None) => tree_entries(*old(t)).dom() == Set::<Seq<u8>>::empty() && tree_entries(
                *final(t),
            ) == tree_entries(*old(t)),
            Err(e) => e is SledError,
        },
{
    match t.pop_max() {
        Ok(Some((k, v))) => Ok(Some((k.to_vec(), v.to_vec()))),
        Ok(None) => Ok(None),
        Err(e) => Err(Error::SledError(e.to_string())),
    }
}

/// Relies on `sled::Tree::range`: iterates, in ascending key order, exactly
/// the entries whose keys lie within the given bounds.
#[verifier::external_body]
pub fn tree_range(t: &sled::Tree, lo: &RangeBound<Vec<u8>>, hi: &RangeBound<Vec<u8>>) -> (r:
    StoreIter)
    ensures
        entries_match(iter_entries(r), restrict_range(tree_entries(*t), lo@, hi@)),
{
    let lob = match lo {
        RangeBound::Unbounded => std::ops::Bound::Unbounded,
        RangeBound::Inclusive(v) => std::ops::Bound::Included(v.clone()),
        RangeBound::Exclusive(v) => std::ops::Bound::Excluded(v.clone()),
    };
    let hib = match hi {
        RangeBound::Unbounded => std::ops::Bound::Unbounded,
        RangeBound::Inclusive(v) => std::ops::Bound::Included(v.clone()),
        RangeBound::Exclusive(v) => std::ops::Bound::Excluded(v.clone()),
    };
    StoreIter { inner: t.range::<Vec<u8>, _>((lob, hib)) }
}

/// Relies on `Iterator::next` for `sled::Iter`: yields the iterator's next
/// entry in key order, or nothing once it is exhausted.  After a store
/// error nothing is claimed of the iterator.
#[verifier::external_body]
pub fn iter_next(it: &mut StoreIter) -> (r: Option<Result<(Vec<u8>, Vec<u8>), Error>>)
    ensures
        match r {
            None => iter_entries(*old(it)).len() == 0 && iter_entries(*final(it)).len() == 0,
            Some(Ok(kv)) => {
                &&& iter_entries(*old(it)).len() > 0
                &&& kv.0@ == iter_entries(*old(it))[0].0
                &&& kv.1@ == iter_entries(*old(it))[0].1
                &&& iter_entries(*final(it)) == iter_entries(*old(it)).drop_first()
            },
            Some(Err(e)) => e is SledError,
        },
{
    match it.inner.next() {
        None => None,
        Some(Ok((k, v))) => Some(Ok((k.to_vec(), v.to_vec()))),
        Some(Err(e)) => Some(Err(Error::SledError(e.to_string()))),
    }
}

/// Relies on `sled::Db`'s deref to its default tree and `sled::Tree::get`:
/// looks a key up in the store's default tree.
#[verifier::external_body]
pub fn db_get(db: &sled::Db, key: &[u8]) -> (r: Result<Option<Vec<u8>>, Error>)
    ensures
        match r {
            Ok(Some(v)) => db_entries(*db).contains_key(key@) && v@ == db_entries(*db)[key@],
            Ok(None) => !db_entries(*db).dom().contains(key@),
            Err(e) => e is SledError,
        },
{
    match db.get(key) {
        Ok(Some(v)) => Ok(Some(v.to_vec())),
        Ok(None) => Ok(None),
        Err(e) => Err(Error::SledError(e.to_string())),
    }
}

/// Relies on `sled::Db`'s deref to its default tree and `sled::Tree::insert`:
/// maps a key to a value in the store's default tree.  On an error nothing
/// is claimed of the store.
#[verifier::external_body]
pub fn db_insert(db: &mut sled::Db, key: &[u8], value: &[u8]) -> (r: Result<Option<Vec<u8>>, Error>)
    ensures
        match r {
            Ok(prev) => {
                &&& db_entries(*final(db)) == db_entries(*old(db)).insert(key@, value@)
                &&& match prev {
                    Some(p) => db_entries(*old(db)).contains_key(key@) && p@ == db_entries(
                        *old(db),
                    )[key@],
                    None => !db_entries(*old(db)).dom().contains(key@),
                }
            },
            Err(e) => e is SledError,
        },
{
    match db.insert(key, value) {
        Ok(Some(v)) => Ok(Some(v.to_vec())),
        Ok(None) => Ok(None),
        Err(e) => Err(Error::SledError(e.to_string())),
    }
}

} // verus!
