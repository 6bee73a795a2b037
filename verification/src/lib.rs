//! A typed access layer over `sled`, an ordered byte-keyed store.
//!
//! The store itself only understands raw byte strings ordered
//! lexicographically; this crate supplies the rules for turning typed keys
//! and values into bytes and back, for translating typed range queries into
//! byte ranges, and for recording which serialization mode wrote a store.
//!
//! The pieces: [`codec`] defines the order-preserving wire format and the
//! [`codec::Codec`] binding, with its round-trip and order laws proved;
//! [`range`] translates typed range bounds to byte bounds; [`bincode_tree`]
//! and [`serde_tree`] are the typed trees, relaxed (types chosen per call)
//! and strict (types pinned per handle); [`mode`] persists which codec
//! wrote a store; [`store`] is the trusted boundary to `sled`.

use vstd::prelude::*;

pub mod bincode_tree;
pub mod codec;
pub mod error;
pub mod mode;
pub mod order;
pub mod range;
pub mod serde_tree;
pub mod store;

use crate::bincode_tree::BincodeTree;
use crate::bincode_tree::RelaxedTree;
use crate::codec::Codec;
use crate::error::Error;
use crate::store::db_entries;

verus! {

/// A wrapper for a codec-bound value, for converting it to and from the
/// raw bytes that the store holds.
pub struct BincodeItem<T>(pub T);

impl<T: Codec> BincodeItem<T> {
    /// The wrapped value's encoding.
    pub fn to_bytes(&self) -> (r: Vec<u8>)
        ensures
            r@ == T::encv(self.0@),
    {
        self.0.encode()
    }

    /// Decodes a wrapped value from raw bytes; nothing exactly when the
    /// bytes are not an encoding for `T`.
    pub fn from_bytes(bytes: &[u8]) -> (r: Option<Self>)
        ensures
            match r {
                Some(item) => T::decv(bytes@) == Some(item.0@),
                None => T::decv(bytes@) is None,
            },
    {
        match T::decode(bytes) {
            Some(v) => Some(BincodeItem(v)),
            None => None,
        }
    }
}

/// A handle to an open store: opens named trees and binds them to relaxed
/// or strict typed trees.  Opening the same name twice yields two handles
/// over the same underlying data.
pub struct SerSledDb {
    pub(crate) inner_db: sled::Db,
}

impl View for SerSledDb {
    type V = Map<Seq<u8>, Seq<u8>>;

    closed spec fn view(&self) -> Map<Seq<u8>, Seq<u8>> {
        db_entries(self.inner_db)
    }
}

impl From<sled::Db> for SerSledDb {
    fn from(value: sled::Db) -> (r: Self) {
        SerSledDb { inner_db: value }
    }
}

impl vstd::std_specs::convert::FromSpecImpl<sled::Db> for SerSledDb {
    open spec fn obeys_from_spec() -> bool {
        true
    }

    closed spec fn from_spec(value: sled::Db) -> Self {
        SerSledDb { inner_db: value }
    }
}

impl SerSledDb {
    /// Opens (creating if absent) the named tree and wraps it as a relaxed
    /// tree over the library's codec.
    pub fn open_relaxed_bincode_tree(&self, tree_name: &str) -> (r: Result<RelaxedTree, Error>)
        ensures
            r matches Err(e) ==> e is SledError,
    {
        match crate::store::db_open_tree(&self.inner_db, tree_name) {
            Ok(tree) => Ok(RelaxedTree::new(tree)),
            Err(e) => Err(e),
        }
    }

    /// Opens (creating if absent) the named tree and wraps it as a strict
    /// tree over the library's codec, with `K` and `V` pinned.
    pub fn open_bincode_tree<K: Codec, V: Codec>(&self, tree_name: &str) -> (r: Result<
        BincodeTree<K, V>,
        Error,
    >)
        ensures
            r matches Err(e) ==> e is SledError,
    {
        match crate::store::db_open_tree(&self.inner_db, tree_name) {
            Ok(tree) => Ok(BincodeTree::new(tree)),
            Err(e) => Err(e),
        }
    }

    /// Opens (creating if absent) the named tree and wraps it as a relaxed
    /// tree over the serde codec.
    pub fn open_relaxed_serde_tree(&self, tree_name: &str) -> (r: Result<
        crate::serde_tree::RelaxedTree,
        Error,
    >)
        ensures
            r matches Err(e) ==> e is SledError,
    {
        match crate::store::db_open_tree(&self.inner_db, tree_name) {
            Ok(tree) => Ok(crate::serde_tree::RelaxedTree::new(tree)),
            Err(e) => Err(e),
        }
    }

    /// Opens (creating if absent) the named tree and wraps it as a strict
    /// tree over the serde codec, with `K` and `V` pinned.
    pub fn open_serde_tree<K: crate::serde_tree::SerdeCodec, V: crate::serde_tree::SerdeCodec>(
        &self,
        tree_name: &str,
    ) -> (r: Result<crate::serde_tree::SerdeTree<K, V>, Error>)
        ensures
            r matches Err(e) ==> e is SledError,
    {
        match crate::store::db_open_tree(&self.inner_db, tree_name) {
            Ok(tree) => Ok(crate::serde_tree::SerdeTree::new(tree)),
            Err(e) => Err(e),
        }
    }
}

} // verus!
