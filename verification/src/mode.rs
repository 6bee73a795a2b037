//! The serializer-mode registry: records, under one reserved key of the
//! store, which codec wrote the store's bytes, so that a reopened store is
//! read with the same encoding that wrote it.
//!
//! A store is either unconfigured (the reserved key is absent, or holds
//! nothing a known mode's tag) or configured with a mode.  Resolution reads
//! the reserved key: a configured mode always wins over the caller's
//! request; an unconfigured store adopts the requested mode and persists
//! its tag.  Once configured, the mode never changes on disk —
//! [`lemma_mode_persists`] states and proves exactly that.

use vstd::prelude::*;

use crate::error::Error;
use crate::store;
use crate::SerSledDb;

verus! {

/// A serialization mode: which codec wrote a store's bytes.
#[derive(Clone, Copy, PartialEq, Eq, Structural, Debug)]
pub enum Mode {
    /// The library's own order-preserving codec.
    Bincode,
    /// The serde-driven codec.
    Serde,
}

/// The tag byte that marks each mode; a tag, once assigned, is never
/// reused for another mode.
pub open spec fn tag_of(m: Mode) -> u8 {
    match m {
        Mode::Bincode => 0,
        Mode::Serde => 1,
    }
}

/// The mode, if any, that a tag byte names.
pub open spec fn mode_of_tag(t: u8) -> Option<Mode> {
    if t == 0 {
        Some(Mode::Bincode)
    } else if t == 1 {
        Some(Mode::Serde)
    } else {
        None
    }
}

/// Writes a mode's tag byte.
pub fn mode_tag(m: Mode) -> (r: u8)
    ensures
        r == tag_of(m),
{
    match m {
        Mode::Bincode => 0,
        Mode::Serde => 1,
    }
}

/// Reads a tag byte back to its mode, if it names one.
pub fn tag_mode(t: u8) -> (r: Option<Mode>)
    ensures
        r == mode_of_tag(t),
{
    if t == 0 {
        Some(Mode::Bincode)
    } else if t == 1 {
        Some(Mode::Serde)
    } else {
        None
    }
}

/// The reserved key of the store's default tree under which the mode
/// marker lives; application keys must keep clear of it.
pub open spec fn mode_key_bytes() -> Seq<u8> {
    seq![255u8, 109u8, 111u8, 100u8, 101u8]
}

/// The reserved key as stored bytes.
pub fn mode_key() -> (r: Vec<u8>)
    ensures
        r@ == mode_key_bytes(),
{
    let mut v: Vec<u8> = Vec::new();
    v.push(255);
    v.push(109);
    v.push(111);
    v.push(100);
    v.push(101);
    proof {
        assert(v@ =~= mode_key_bytes());
    }
    v
}

/// The mode a store is configured with, if any: the one whose tag the
/// reserved key holds as a single recognized byte.
pub open spec fn configured(entries: Map<Seq<u8>, Seq<u8>>) -> Option<Mode> {
    if entries.contains_key(mode_key_bytes()) {
        let v = entries[mode_key_bytes()];
        if v.len() == 1 {
            mode_of_tag(v[0])
        } else {
            None
        }
    } else {
        None
    }
}

/// What resolving against a requested mode yields: the configured mode
/// where there is one, else the requested one.
pub open spec fn resolved_mode(entries: Map<Seq<u8>, Seq<u8>>, requested: Mode) -> Mode {
    match configured(entries) {
        Some(m) => m,
        None => requested,
    }
}

/// The store's contents after resolving: untouched where a mode was
/// configured; otherwise the requested mode's tag is written under the
/// reserved key.
pub open spec fn resolved_entries(entries: Map<Seq<u8>, Seq<u8>>, requested: Mode) -> Map<
    Seq<u8>,
    Seq<u8>,
> {
    match configured(entries) {
        Some(m) => entries,
        None => entries.insert(mode_key_bytes(), seq![tag_of(requested)]),
    }
}

/// Mode persistence: once a resolution has configured a store, every later
/// resolution yields that first mode, whatever mode it requests, and
/// leaves the store as it was.
pub proof fn lemma_mode_persists(entries: Map<Seq<u8>, Seq<u8>>, first: Mode, second: Mode)
    ensures
        configured(resolved_entries(entries, first)) == Some(resolved_mode(entries, first)),
        resolved_mode(resolved_entries(entries, first), second) == resolved_mode(entries, first),
        resolved_entries(resolved_entries(entries, first), second) == resolved_entries(
            entries,
            first,
        ),
{
    match configured(entries) {
        Some(m) => {
        },
        None => {
            let e2 = entries.insert(mode_key_bytes(), seq![tag_of(first)]);
            assert(e2[mode_key_bytes()] == seq![tag_of(first)]);
            assert(seq![tag_of(first)].len() == 1);
            assert(mode_of_tag(tag_of(first)) == Some(first));
        },
    }
}

impl SerSledDb {
    /// Reads the reserved key and resolves the store's mode against the
    /// caller's request: a persisted mode wins; an absent or unrecognized
    /// marker adopts the requested mode and persists its tag.  A store
    /// failure while reading or writing the marker is propagated, never
    /// swallowed.
    pub fn resolve_mode(&mut self, requested: Mode) -> (r: Result<Mode, Error>)
        ensures
            match r {
                Ok(m) => m == resolved_mode(old(self)@, requested) && final(self)@
                    == resolved_entries(old(self)@, requested),
                Err(e) => e is SledError,
            },
    {
        let key = mode_key();
        match store::db_get(&self.inner_db, key.as_slice()) {
            Ok(Some(marker)) => {
                if marker.len() == 1 {
                    match tag_mode(marker[0]) {
                        Some(m) => {
                            return Ok(m);
                        },
                        None => {},
                    }
                }
                self.adopt_mode(requested)
            },
            Ok(None) => self.adopt_mode(requested),
            Err(e) => Err(e),
        }
    }

    /// Writes the requested mode's tag under the reserved key; the store
    /// must be unconfigured.
    fn adopt_mode(&mut self, requested: Mode) -> (r: Result<Mode, Error>)
        requires
            configured(old(self)@) is None,
        ensures
            match r {
                Ok(m) => m == requested && final(self)@ == old(self)@.insert(
                    mode_key_bytes(),
                    seq![tag_of(requested)],
                ),
                Err(e) => e is SledError,
            },
    {
        let key = mode_key();
        let tag = mode_tag(requested);
        let mut marker: Vec<u8> = Vec::new();
        marker.push(tag);
        proof {
            assert(marker@ =~= seq![tag_of(requested)]);
        }
        match store::db_insert(&mut self.inner_db, key.as_slice(), marker.as_slice()) {
            Ok(prev) => Ok(requested),
            Err(e) => Err(e),
        }
    }
}

} // verus!
