use vstd::prelude::*;

use crate::chunk::{chunk_index_of, chunk_index_to_name, chunk_name, chunk_name_to_index};
use crate::db_post_ref::{ChunkSettings, DbPostRef, EntryView};

verus! {

/// Abstract value of a [`DbPostRefSerialized`].
pub ghost struct RecordView {
    pub hash: Seq<char>,
    pub reply_to: Seq<char>,
    pub offset: u64,
    pub length: u64,
    pub deleted: bool,
    pub chunk_name: Option<Seq<char>>,
}

/// One record of the index snapshot and of the diff log, keyed
/// `h`, `r`, `o`, `l`, `d`, `f` on disk.
#[derive(Debug, Clone, PartialEq, Eq)]
pub struct DbPostRefSerialized {
    /// Post hash
    pub hash: String,
    /// Hash of the parent post
    pub reply_to: String,
    /// Offset in bytes from the start of the chunk
    pub offset: u64,
    /// Length of the post message in bytes
    pub length: u64,
    /// Whether the post is deleted
    pub deleted: bool,
    /// Chunk file name; absent where the post's space was reused
    pub chunk_name: Option<String>,
}

/// A collection of raw deserialized database references
#[derive(Debug, Clone, PartialEq, Eq)]
pub struct IndexCollection {
    pub indexes: Vec<DbPostRefSerialized>,
}

/// The hash of a post and the hash of its parent.
#[derive(Debug, Clone, PartialEq, Eq)]
pub struct PostHashes {
    pub parent: String,
    pub hash: String,
}

pub open spec fn opt_string_view(s: Option<String>) -> Option<Seq<char>> {
    match s {
        Some(v) => Some(v@),
        None => None,
    }
}

impl View for DbPostRefSerialized {
    type V = RecordView;

    open spec fn view(&self) -> RecordView {
        RecordView {
            hash: self.hash@,
            reply_to: self.reply_to@,
            offset: self.offset,
            length: self.length,
            deleted: self.deleted,
            chunk_name: opt_string_view(self.chunk_name),
        }
    }
}

impl View for PostHashes {
    type V = (Seq<char>, Seq<char>);

    /// The post's hash, then its parent's.
    open spec fn view(&self) -> (Seq<char>, Seq<char>) {
        (self.hash@, self.parent@)
    }
}

/// The record that stores an entry; the offset is 0 where the entry holds no range.
pub open spec fn record_of(hashes: (Seq<char>, Seq<char>), e: EntryView) -> RecordView {
    RecordView {
        hash: hashes.0,
        reply_to: hashes.1,
        offset: match e.chunk_settings {
            Some(s) => s.offset,
            None => 0,
        },
        length: e.length,
        deleted: e.deleted,
        chunk_name: match e.chunk_settings {
            Some(s) => Some(chunk_name(s.chunk_index as nat)),
            None => None,
        },
    }
}

/// The chunk position that a record names; `None` inside `Some` where it names
/// no chunk, and `None` where its chunk name is malformed.
pub open spec fn settings_of(r: RecordView) -> Option<Option<ChunkSettings>> {
    match r.chunk_name {
        None => Some(None),
        Some(name) => match chunk_index_of(name) {
            Some(i) => Some(Some(ChunkSettings { chunk_index: i, offset: r.offset })),
            None => None,
        },
    }
}

/// The hashes and the entry that a record describes, where its chunk name is well formed.
pub open spec fn entry_of(r: RecordView) -> Option<((Seq<char>, Seq<char>), EntryView)> {
    match settings_of(r) {
        Some(cs) => Some(
            (
                (r.hash, r.reply_to),
                EntryView {
                    chunk_settings: cs,
                    length: r.length,
                    deleted: r.deleted,
                    parent_hash: r.reply_to,
                },
            ),
        ),
        None => None,
    }
}

/// A record in the form that the engine writes: a canonical chunk name, and
/// offset 0 where it names no chunk.
pub open spec fn is_canonical(r: RecordView) -> bool {
    match r.chunk_name {
        None => r.offset == 0,
        Some(name) => exists|i: u64| name == chunk_name(i as nat),
    }
}

impl DbPostRefSerialized {
    /// Splits the record into the post's hashes and its in-memory entry;
    /// `None` where its chunk name is malformed.
    pub fn split(self) -> (r: Option<(PostHashes, DbPostRef)>)
        ensures
            r is Some <==> entry_of(self@) is Some,
            r matches Some(p) ==> entry_of(self@) == Some((p.0@, p.1@)),
    {
        let chunk_settings = match self.chunk_name {
            Some(name) => match chunk_name_to_index(name) {
                Some(chunk_index) => Some(ChunkSettings { chunk_index, offset: self.offset }),
                None => {
                    return None;
                },
            },
            None => None,
        };
        let parent = self.reply_to;
        let hashes = PostHashes { parent: parent.clone(), hash: self.hash };
        let db_post_ref = DbPostRef {
            chunk_settings,
            deleted: self.deleted,
            length: self.length,
            parent_hash: parent,
        };
        Some((hashes, db_post_ref))
    }

    pub fn clone_record(&self) -> (r: Self)
        ensures
            r@ == self@,
    {
        let chunk_name = match &self.chunk_name {
            Some(n) => Some(n.clone()),
            None => None,
        };
        DbPostRefSerialized {
            hash: self.hash.clone(),
            reply_to: self.reply_to.clone(),
            offset: self.offset,
            length: self.length,
            deleted: self.deleted,
            chunk_name,
        }
    }

    /// The record that stores `db_ref` under `hashes`.
    pub fn new(hashes: &PostHashes, db_ref: &DbPostRef) -> (r: Self)
        ensures
            r@ == record_of(hashes@, db_ref@),
    {
        let (chunk_name, offset) = match db_ref.chunk_settings {
            Some(settings) => (Some(chunk_index_to_name(settings.chunk_index)), settings.offset),
            None => (None, 0),
        };
        DbPostRefSerialized {
            chunk_name,
            deleted: db_ref.deleted,
            hash: hashes.hash.clone(),
            reply_to: hashes.parent.clone(),
            length: db_ref.length,
            offset,
        }
    }
}

/// An entry written as a record and read back is the same entry.
pub proof fn lemma_entry_record_round_trip(hashes: (Seq<char>, Seq<char>), e: EntryView)
    requires
        e.parent_hash == hashes.1,
    ensures
        entry_of(record_of(hashes, e)) == Some((hashes, e)),
{
    if let Some(s) = e.chunk_settings {
        crate::chunk::lemma_chunk_name_round_trip(s.chunk_index);
    }
}

/// A record in the engine's own form, read as an entry and written back, is the
/// same record.
pub proof fn lemma_record_entry_round_trip(r: RecordView)
    requires
        is_canonical(r),
    ensures
        entry_of(r) matches Some(p) && record_of(p.0, p.1) == r,
{
    if let Some(name) = r.chunk_name {
        let i = choose|i: u64| name == chunk_name(i as nat);
        crate::chunk::lemma_chunk_name_round_trip(i);
    }
}

} // verus!
