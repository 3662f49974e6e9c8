use vstd::prelude::*;

use crate::chunk::{size_check, sweep_from, Chunk, ChunkError, ChunkSlot};
use crate::db_post_ref::ChunkSettings;

verus! {

#[derive(Debug, Clone, Copy, PartialEq, Eq)]
pub enum OnDiskChunkCollectionProcessorError {
    /// A chunk operation failed.
    ChunkError(ChunkError),
    /// Message bytes read from a chunk are no valid UTF-8.
    Utf8Error,
}

/// Where one appended message goes.
#[derive(Debug, Clone, Copy, PartialEq, Eq)]
pub struct ChunkWrite {
    pub settings: ChunkSettings,
    /// The tail rolled over: the chunk of `settings` must be created empty
    /// before the write.
    pub create_chunk: bool,
}

/// Where an append lands, given the tail chunk and the current size of its
/// file: at the end of the tail while the tail is under its limit, else at the
/// start of a fresh chunk that follows it.
pub open spec fn placement(last: Chunk, tail_size: Option<u64>) -> Result<ChunkWrite, ChunkError> {
    match size_check(tail_size, last.max_chunk_size) {
        Ok(_) => Ok(
            ChunkWrite {
                settings: ChunkSettings { chunk_index: last.index, offset: tail_size->0 },
                create_chunk: false,
            },
        ),
        Err(ChunkError::ChunkTooLarge) => if last.index < u64::MAX {
            Ok(
                ChunkWrite {
                    settings: ChunkSettings { chunk_index: (last.index + 1) as u64, offset: 0 },
                    create_chunk: true,
                },
            )
        } else {
            Err(ChunkError::ChunkTooLarge)
        },
        Err(e) => Err(e),
    }
}

/// The tail chunk after an append was placed.
pub open spec fn tail_after(last: Chunk, tail_size: Option<u64>) -> Chunk {
    match placement(last, tail_size) {
        Ok(w) => if w.create_chunk {
            Chunk { index: (last.index + 1) as u64, max_chunk_size: last.max_chunk_size }
        } else {
            last
        },
        Err(_) => last,
    }
}

/// A logical append-only sequence over bounded chunks: holds the tail chunk
/// and rolls it over when it is full.
#[derive(Debug)]
pub struct OnDiskChunkCollectionProcessor {
    last_chunk: Chunk,
}

impl OnDiskChunkCollectionProcessor {
    pub closed spec fn last(&self) -> Chunk {
        self.last_chunk
    }

    /// Settles on the tail chunk by sweeping the existing chunk files from
    /// chunk 0 (see `Chunk::try_new`). `sizes[k]` is the size of the file of
    /// chunk `k`; the flag tells whether the tail's file must be created.
    pub fn new(max_chunk_size: Option<u64>, sizes: &[u64]) -> (r: (Self, bool))
        requires
            sizes@.len() <= u64::MAX,
        ensures
            r.0.last() == sweep_from(0, max_chunk_size, sizes@).chunk(),
            r.1 == sweep_from(0, max_chunk_size, sizes@) is Create,
    {
        let slot = Chunk::try_new(max_chunk_size, sizes);
        let create = match slot {
            ChunkSlot::Create(_) => true,
            ChunkSlot::Open(_) => false,
        };
        (OnDiskChunkCollectionProcessor { last_chunk: slot.into_chunk() }, create)
    }

    /// A processor whose tail is `last_chunk`.
    pub fn from_chunk(last_chunk: Chunk) -> (r: Self)
        ensures
            r.last() == last_chunk,
    {
        OnDiskChunkCollectionProcessor { last_chunk }
    }

    pub fn last_chunk(&self) -> (r: &Chunk)
        ensures
            *r == self.last(),
    {
        &self.last_chunk
    }

    /// Rolls the tail over to the chunk that follows it.
    pub fn extend_current_chunk(&mut self)
        requires
            old(self).last().index < u64::MAX,
        ensures
            final(self).last() == (Chunk {
                index: (old(self).last().index + 1) as u64,
                max_chunk_size: old(self).last().max_chunk_size,
            }),
    {
        let new_chunk = self.last_chunk.create_extended();
        self.last_chunk = new_chunk;
    }

    /// Places one append, given the current size of the tail's file (`None`
    /// where it does not exist). A full tail rolls over to a fresh chunk, where
    /// the append lands at offset 0. The size check comes before the write, so
    /// the write that crosses the limit is allowed.
    pub fn insert(&mut self, tail_size: Option<u64>) -> (r: Result<
        ChunkWrite,
        OnDiskChunkCollectionProcessorError,
    >)
        ensures
            match placement(old(self).last(), tail_size) {
                Ok(w) => r == Ok::<ChunkWrite, OnDiskChunkCollectionProcessorError>(w),
                Err(e) => r == Err::<ChunkWrite, OnDiskChunkCollectionProcessorError>(
                    OnDiskChunkCollectionProcessorError::ChunkError(e),
                ),
            },
            final(self).last() == tail_after(old(self).last(), tail_size),
    {
        match self.last_chunk.validate_chunk_size(tail_size) {
            Ok(_) => {
                let offset = match tail_size {
                    Some(s) => s,
                    None => 0,
                };
                Ok(
                    ChunkWrite {
                        settings: ChunkSettings { chunk_index: self.last_chunk.index, offset },
                        create_chunk: false,
                    },
                )
            },
            Err(ChunkError::ChunkTooLarge) => {
                if self.last_chunk.index == u64::MAX {
                    return Err(
                        OnDiskChunkCollectionProcessorError::ChunkError(ChunkError::ChunkTooLarge),
                    );
                }
                self.extend_current_chunk();
                Ok(
                    ChunkWrite {
                        settings: ChunkSettings { chunk_index: self.last_chunk.index, offset: 0 },
                        create_chunk: true,
                    },
                )
            },
            Err(e) => Err(OnDiskChunkCollectionProcessorError::ChunkError(e)),
        }
    }
}

/// The append that fills a chunk to one byte under its limit is placed at
/// the end of that chunk; once it wrote at least one byte, the next append
/// rolls over to offset 0 of the following chunk.
pub proof fn lemma_rollover_at_limit(last: Chunk, written: u64)
    requires
        last.max_chunk_size >= 1,
        written >= 1,
        last.max_chunk_size - 1 + written <= u64::MAX,
        last.index < u64::MAX,
    ensures
        placement(last, Some((last.max_chunk_size - 1) as u64)) == Ok::<ChunkWrite, ChunkError>(
            ChunkWrite {
                settings: ChunkSettings {
                    chunk_index: last.index,
                    offset: (last.max_chunk_size - 1) as u64,
                },
                create_chunk: false,
            },
        ),
        placement(last, Some((last.max_chunk_size - 1 + written) as u64)) == Ok::<
            ChunkWrite,
            ChunkError,
        >(
            ChunkWrite {
                settings: ChunkSettings { chunk_index: (last.index + 1) as u64, offset: 0 },
                create_chunk: true,
            },
        ),
{
    crate::chunk::lemma_append_at_limit(last.max_chunk_size, written);
}

} // verus!
