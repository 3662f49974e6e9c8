use vstd::prelude::*;

use crate::chunk::{ChunkIndex, Offset};

verus! {

/// Where a stored message starts: a chunk and an offset inside it.
#[derive(Debug, Clone, Copy, PartialEq, Eq, Hash, Structural)]
pub struct ChunkSettings {
    /// Post's chunk index
    pub chunk_index: ChunkIndex,
    /// Offset from the start of the chunk file
    pub offset: Offset,
}

/// Abstract value of a [`DbPostRef`].
pub ghost struct EntryView {
    pub chunk_settings: Option<ChunkSettings>,
    pub length: u64,
    pub deleted: bool,
    pub parent_hash: Seq<char>,
}

/// In-memory reference to a stored post message.
#[derive(Debug, Clone, PartialEq, Eq)]
pub struct DbPostRef {
    /// `None` where the post was deleted and its space was reused, so that its
    /// message no longer occupies any space in a chunk.
    pub chunk_settings: Option<ChunkSettings>,
    /// Message length in bytes
    pub length: u64,
    /// Whether the post was deleted. It may still occupy space in a chunk,
    /// see `chunk_settings`.
    pub deleted: bool,
    /// Hash of the post this one replies to
    pub parent_hash: String,
}

impl View for DbPostRef {
    type V = EntryView;

    open spec fn view(&self) -> EntryView {
        EntryView {
            chunk_settings: self.chunk_settings,
            length: self.length,
            deleted: self.deleted,
            parent_hash: self.parent_hash@,
        }
    }
}

impl EntryView {
    /// A deleted entry whose byte range can still be handed to a new post.
    pub open spec fn is_free(self) -> bool {
        self.deleted && self.chunk_settings is Some && self.length > 0
    }
}

impl DbPostRef {
    /// A deleted entry whose byte range can still be handed to a new post.
    pub fn is_free(&self) -> (r: bool)
        ensures
            r == self@.is_free(),
    {
        self.deleted && self.chunk_settings.is_some() && self.length > 0
    }

    pub fn clone_ref(&self) -> (r: DbPostRef)
        ensures
            r@ == self@,
    {
        DbPostRef {
            chunk_settings: self.chunk_settings,
            length: self.length,
            deleted: self.deleted,
            parent_hash: self.parent_hash.clone(),
        }
    }
}

} // verus!
