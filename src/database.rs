use vstd::prelude::*;
use vstd::utf8::*;

use crate::chunk::{Chunk, ChunkError};
use crate::chunk_processor::{
    placement, tail_after, ChunkWrite, OnDiskChunkCollectionProcessor,
    OnDiskChunkCollectionProcessorError,
};
use crate::collection::{DbRefCollection, DbRefCollectionError, RefsModel};
use crate::db_post_ref::{ChunkSettings, EntryView};
use crate::post::{base64_of, message_bytes, Post, PostMessage};
use crate::serialized::{record_of, DbPostRefSerialized, RecordView};

verus! {

/// The message text that `get_post` shows for a deleted post.
pub const DELETED_STUB: &'static str = "Deleted Message Stub Move Me To Const Pls :)";

#[derive(Debug, Clone, PartialEq, Eq)]
pub enum LegacyDatabaseError {
    ChunkError(ChunkError),
    /// `put_post` of a hash that is known already.
    DuplicatePost,
    /// `update_post` or `delete_post` of an unknown hash.
    PostDoesntExist,
    /// A live entry names no range; holds the entry's hash.
    EntryCorrupted(String),
    /// `update_post` of a post that was not deleted first.
    CantUpdateNonDeletedPost,
    DbRefCollectionError(DbRefCollectionError),
    /// Message bytes read from a chunk are no valid UTF-8.
    InvalidMessage,
}

/// The chunk write that finishes a put: `bytes` go to `settings`, into a
/// chunk that is first created empty where `create_chunk` is set.
#[derive(Debug, Clone, PartialEq, Eq)]
pub struct PendingWrite {
    pub settings: ChunkSettings,
    pub create_chunk: bool,
    pub bytes: Vec<u8>,
}

/// A live post whose message is to be read from a chunk range.
#[derive(Debug, Clone, PartialEq, Eq)]
pub struct StoredPost {
    pub hash: String,
    pub reply_to: String,
    pub settings: ChunkSettings,
    pub length: u64,
}

/// What `get_post` found.
#[derive(Debug, Clone, PartialEq, Eq)]
pub enum PostRead {
    /// A deleted post, shown with the stub message.
    Deleted(Post),
    /// A live post: its message is `length` bytes at `settings`.
    Stored(StoredPost),
}

/// What the index says about one hash, for a read.
pub ghost enum ReadView {
    Missing,
    Deleted { parent: Seq<char> },
    Corrupted,
    Stored { settings: ChunkSettings, length: u64, parent: Seq<char> },
}

pub open spec fn read_of(m: RefsModel, h: Seq<char>) -> ReadView {
    if !m.contains(h) {
        ReadView::Missing
    } else if m.entry(h).deleted {
        ReadView::Deleted { parent: m.entry(h).parent_hash }
    } else {
        match m.entry(h).chunk_settings {
            None => ReadView::Corrupted,
            Some(s) => ReadView::Stored {
                settings: s,
                length: m.entry(h).length,
                parent: m.entry(h).parent_hash,
            },
        }
    }
}

/// The outcome of storing a post of `len` message bytes under `h`.
pub ghost struct UpsertEffect {
    pub refs: RefsModel,
    pub tail: Chunk,
    pub diff: Seq<RecordView>,
    pub write: Result<ChunkWrite, ChunkError>,
}

/// A post goes into the index (into the best-fitting hole, if any); where it
/// gets no hole, its message is appended to the tail and the range is stamped
/// on its entry. Where it gets no hole and the tail cannot take the append,
/// nothing changes.
pub open spec fn upsert_effect(
    m: RefsModel,
    last: Chunk,
    h: Seq<char>,
    parent: Seq<char>,
    len: u64,
    tail_size: Option<u64>,
) -> UpsertEffect {
    let m1 = m.after_put(h, parent, len);
    let d1 = m.put_records(h, parent, len);
    let e = m1.entry(h);
    match e.chunk_settings {
        Some(s) => UpsertEffect {
            refs: m1,
            tail: last,
            diff: d1,
            write: Ok(ChunkWrite { settings: s, create_chunk: false }),
        },
        None => match placement(last, tail_size) {
            Ok(w) => {
                let e2 = EntryView { chunk_settings: Some(w.settings), ..e };
                UpsertEffect {
                    refs: m1.upsert(h, e2),
                    tail: tail_after(last, tail_size),
                    diff: d1.push(record_of((h, e2.parent_hash), e2)),
                    write: Ok(w),
                }
            },
            Err(err) => UpsertEffect { refs: m, tail: last, diff: Seq::empty(), write: Err(err) },
        },
    }
}

/// The post store: the reference collection and the tail of the chunk
/// sequence. Chunk file contents and the diff file are handled by the
/// caller, which performs the writes and reads that the methods hand out.
pub struct LegacyDatabase {
    reference: DbRefCollection,
    chunk_processor: OnDiskChunkCollectionProcessor,
}

impl LegacyDatabase {
    pub closed spec fn refs(&self) -> RefsModel {
        self.reference@
    }

    pub closed spec fn tail(&self) -> Chunk {
        self.chunk_processor.last()
    }

    pub closed spec fn diff_records(&self) -> Seq<RecordView> {
        self.reference.diff_records()
    }

    pub open spec fn wf(&self) -> bool {
        self.refs().wf()
    }

    pub fn new(reference: DbRefCollection, chunk_processor: OnDiskChunkCollectionProcessor) -> (r:
        Self)
        requires
            reference@.wf(),
        ensures
            r.wf(),
            r.refs() == reference@,
            r.tail() == chunk_processor.last(),
            r.diff_records() == reference.diff_records(),
    {
        LegacyDatabase { reference, chunk_processor }
    }

    pub fn reference(&self) -> (r: &DbRefCollection)
        ensures
            r@ == self.refs(),
            r.diff_records() == self.diff_records(),
    {
        &self.reference
    }

    pub fn chunk_processor(&self) -> (r: &OnDiskChunkCollectionProcessor)
        ensures
            r.last() == self.tail(),
    {
        &self.chunk_processor
    }

    /// Hands out the diff records, oldest first, to be appended to the diff log.
    pub fn take_diff(&mut self) -> (r: Vec<DbPostRefSerialized>)
        ensures
            crate::collection::records_view(r@) == old(self).diff_records(),
            final(self).diff_records() == Seq::<RecordView>::empty(),
            final(self).refs() == old(self).refs(),
            final(self).tail() == old(self).tail(),
    {
        self.reference.take_diff()
    }

    fn upsert_post(&mut self, post: Post, tail_size: Option<u64>) -> (r: Result<
        PendingWrite,
        LegacyDatabaseError,
    >)
        requires
            old(self).wf(),
        ensures
            final(self).wf(),
            ({
                let eff = upsert_effect(
                    old(self).refs(),
                    old(self).tail(),
                    post.hash@,
                    post.reply_to@,
                    message_bytes(post.message@).len() as u64,
                    tail_size,
                );
                &&& final(self).refs() == eff.refs
                &&& final(self).tail() == eff.tail
                &&& final(self).diff_records() == old(self).diff_records() + eff.diff
                &&& match eff.write {
                    Ok(w) => r matches Ok(pw) && pw.settings == w.settings && pw.create_chunk
                        == w.create_chunk && pw.bytes@ == message_bytes(post.message@)
                        && base64_of(pw.bytes@) == post.message@ && valid_utf8(pw.bytes@),
                    Err(e) => r == Err::<PendingWrite, LegacyDatabaseError>(
                        LegacyDatabaseError::ChunkError(e),
                    ),
                }
            }),
    {
        let bytes = post.get_message_bytes();
        let ghost m0 = self.reference@;
        let ghost len = bytes@.len() as u64;
        proof {
            crate::collection::lemma_upsert_entry(m0, post.hash@, post.reply_to@, len);
            crate::collection::lemma_best_fit_fits(m0, len as nat);
        }
        assert(bytes@.len() == bytes.len());
        assert(len as nat == bytes@.len());
        let hole = self.reference.find_free_ref(bytes.as_slice());
        match hole {
            Some(_) => {
                let (hash, _message) = self.reference.put_post(post);
                let settings = match self.reference.get_ref(hash.as_str()) {
                    Some(db_ref) => db_ref.chunk_settings,
                    None => None,
                };
                match settings {
                    Some(s) => Ok(PendingWrite { settings: s, create_chunk: false, bytes }),
                    None => Err(LegacyDatabaseError::EntryCorrupted(hash)),
                }
            },
            None => {
                let w = match self.chunk_processor.insert(tail_size) {
                    Ok(w) => w,
                    Err(OnDiskChunkCollectionProcessorError::ChunkError(e)) => {
                        assert(old(self).diff_records() + Seq::<RecordView>::empty()
                            =~= old(self).diff_records());
                        return Err(LegacyDatabaseError::ChunkError(e));
                    },
                    Err(OnDiskChunkCollectionProcessorError::Utf8Error) => {
                        return Err(LegacyDatabaseError::InvalidMessage);
                    },
                };
                let (hash, _message) = self.reference.put_post(post);
                self.reference.set_chunk_settings(hash.as_str(), w.settings);
                Ok(PendingWrite { settings: w.settings, create_chunk: w.create_chunk, bytes })
            },
        }
    }

    /// Stores a new post. Fails with `DuplicatePost` where its hash is known.
    /// `tail_size` is the current size of the tail chunk's file (`None` where
    /// it does not exist); the returned write is to be performed by the caller.
    pub fn put_post(&mut self, post: Post, tail_size: Option<u64>) -> (r: Result<
        PendingWrite,
        LegacyDatabaseError,
    >)
        requires
            old(self).wf(),
        ensures
            final(self).wf(),
            old(self).refs().contains(post.hash@) ==> r == Err::<
                PendingWrite,
                LegacyDatabaseError,
            >(LegacyDatabaseError::DuplicatePost) && final(self).refs() == old(self).refs()
                && final(self).tail() == old(self).tail() && final(self).diff_records() == old(
                self,
            ).diff_records(),
            !old(self).refs().contains(post.hash@) ==> {
                let eff = upsert_effect(
                    old(self).refs(),
                    old(self).tail(),
                    post.hash@,
                    post.reply_to@,
                    message_bytes(post.message@).len() as u64,
                    tail_size,
                );
                &&& final(self).refs() == eff.refs
                &&& final(self).tail() == eff.tail
                &&& final(self).diff_records() == old(self).diff_records() + eff.diff
                &&& match eff.write {
                    Ok(w) => r matches Ok(pw) && pw.settings == w.settings && pw.create_chunk
                        == w.create_chunk && pw.bytes@ == message_bytes(post.message@)
                        && base64_of(pw.bytes@) == post.message@ && valid_utf8(pw.bytes@),
                    Err(e) => r == Err::<PendingWrite, LegacyDatabaseError>(
                        LegacyDatabaseError::ChunkError(e),
                    ),
                }
            },
    {
        if self.reference.ref_exists(post.hash.as_str()) {
            return Err(LegacyDatabaseError::DuplicatePost);
        }
        self.upsert_post(post, tail_size)
    }

    /// Stores a post again under a hash that was deleted. Fails with
    /// `PostDoesntExist` where the hash is unknown, and with
    /// `CantUpdateNonDeletedPost` where it is not deleted.
    pub fn update_post(&mut self, post: Post, tail_size: Option<u64>) -> (r: Result<
        PendingWrite,
        LegacyDatabaseError,
    >)
        requires
            old(self).wf(),
        ensures
            final(self).wf(),
            !old(self).refs().contains(post.hash@) ==> r == Err::<
                PendingWrite,
                LegacyDatabaseError,
            >(LegacyDatabaseError::PostDoesntExist),
            old(self).refs().contains(post.hash@) && !old(self).refs().entry(post.hash@).deleted
                ==> r == Err::<PendingWrite, LegacyDatabaseError>(
                LegacyDatabaseError::CantUpdateNonDeletedPost,
            ),
            !(old(self).refs().contains(post.hash@) && old(self).refs().entry(post.hash@).deleted)
                ==> final(self).refs() == old(self).refs() && final(self).tail() == old(self).tail()
                && final(self).diff_records() == old(self).diff_records(),
            old(self).refs().contains(post.hash@) && old(self).refs().entry(post.hash@).deleted
                ==> {
                let eff = upsert_effect(
                    old(self).refs(),
                    old(self).tail(),
                    post.hash@,
                    post.reply_to@,
                    message_bytes(post.message@).len() as u64,
                    tail_size,
                );
                &&& final(self).refs() == eff.refs
                &&& final(self).tail() == eff.tail
                &&& final(self).diff_records() == old(self).diff_records() + eff.diff
                &&& match eff.write {
                    Ok(w) => r matches Ok(pw) && pw.settings == w.settings && pw.create_chunk
                        == w.create_chunk && pw.bytes@ == message_bytes(post.message@)
                        && base64_of(pw.bytes@) == post.message@ && valid_utf8(pw.bytes@),
                    Err(e) => r == Err::<PendingWrite, LegacyDatabaseError>(
                        LegacyDatabaseError::ChunkError(e),
                    ),
                }
            },
    {
        if !self.reference.ref_exists(post.hash.as_str()) {
            return Err(LegacyDatabaseError::PostDoesntExist);
        }
        if !self.reference.ref_deleted(post.hash.as_str()) {
            return Err(LegacyDatabaseError::CantUpdateNonDeletedPost);
        }
        self.upsert_post(post, tail_size)
    }

    /// Looks a post up. A deleted post comes with the stub message; a live one
    /// comes as the range its message is to be read from.
    pub fn get_post(&self, hash: String) -> (r: Result<Option<PostRead>, LegacyDatabaseError>)
        requires
            self.wf(),
        ensures
            match read_of(self.refs(), hash@) {
                ReadView::Missing => r == Ok::<Option<PostRead>, LegacyDatabaseError>(None),
                ReadView::Deleted { parent } => r matches Ok(Some(PostRead::Deleted(p)))
                    && p.hash@ == hash@ && p.reply_to@ == parent && p.message@ == base64_of(
                    encode_utf8(DELETED_STUB@),
                ),
                ReadView::Corrupted => r matches Err(LegacyDatabaseError::EntryCorrupted(h))
                    && h@ == hash@,
                ReadView::Stored { settings, length, parent } => r matches Ok(
                    Some(PostRead::Stored(sp)),
                ) && sp.hash@ == hash@ && sp.reply_to@ == parent && sp.settings == settings
                    && sp.length == length,
            },
    {
        let db_ref = match self.reference.get_ref(hash.as_str()) {
            Some(db_ref) => db_ref,
            None => {
                return Ok(None);
            },
        };
        if db_ref.deleted {
            let stub = String::from_str(DELETED_STUB);
            return Ok(
                Some(PostRead::Deleted(Post::new(hash, db_ref.parent_hash.clone(), stub))),
            );
        }
        match db_ref.chunk_settings {
            None => Err(LegacyDatabaseError::EntryCorrupted(hash)),
            Some(settings) => Ok(
                Some(
                    PostRead::Stored(
                        StoredPost {
                            hash,
                            reply_to: db_ref.parent_hash.clone(),
                            settings,
                            length: db_ref.length,
                        },
                    ),
                ),
            ),
        }
    }

    /// Marks a post deleted; its bytes stay in the chunk until reclaimed.
    pub fn delete_post(&mut self, hash: String) -> (r: Result<(), LegacyDatabaseError>)
        requires
            old(self).wf(),
        ensures
            final(self).wf(),
            final(self).tail() == old(self).tail(),
            !old(self).refs().contains(hash@) ==> r == Err::<(), LegacyDatabaseError>(
                LegacyDatabaseError::PostDoesntExist,
            ),
            old(self).refs().contains(hash@) && old(self).refs().entry(hash@).deleted ==> r
                == Err::<(), LegacyDatabaseError>(
                LegacyDatabaseError::DbRefCollectionError(DbRefCollectionError::PostAlreadyDeleted),
            ),
            r is Err ==> final(self).refs() == old(self).refs() && final(self).diff_records()
                == old(self).diff_records(),
            r is Ok <==> old(self).refs().contains(hash@) && !old(self).refs().entry(hash@).deleted,
            r is Ok ==> {
                let e = EntryView { deleted: true, ..old(self).refs().entry(hash@) };
                &&& final(self).refs() == old(self).refs().upsert(hash@, e)
                &&& final(self).diff_records() == old(self).diff_records().push(
                    record_of((hash@, e.parent_hash), e),
                )
            },
    {
        match self.reference.delete_post(hash.as_str()) {
            Ok(_) => Ok(()),
            Err(DbRefCollectionError::PostDoesntExist) => Err(LegacyDatabaseError::PostDoesntExist),
            Err(e) => Err(LegacyDatabaseError::DbRefCollectionError(e)),
        }
    }
}

/// Builds the post that a stored read found, from the bytes read at its range.
pub fn finish_read(stored: StoredPost, bytes: Vec<u8>) -> (r: Result<Post, LegacyDatabaseError>)
    ensures
        r is Ok <==> valid_utf8(bytes@),
        r is Err ==> r == Err::<Post, LegacyDatabaseError>(LegacyDatabaseError::InvalidMessage),
        r matches Ok(p) ==> p.hash@ == stored.hash@ && p.reply_to@ == stored.reply_to@
            && p.message@ == base64_of(bytes@),
{
    match PostMessage::from_bytes(bytes) {
        Some(message) => Ok(Post { hash: stored.hash, reply_to: stored.reply_to, message }),
        None => Err(LegacyDatabaseError::InvalidMessage),
    }
}

/// After a put or an update stored a post under `h`, a read of `h` finds the
/// range that was written, with the message's length and the post's parent.
/// Read back, those bytes give the message: its text is their base64.
pub proof fn lemma_get_after_upsert(
    m: RefsModel,
    last: Chunk,
    h: Seq<char>,
    parent: Seq<char>,
    len: u64,
    tail_size: Option<u64>,
)
    requires
        m.wf(),
        upsert_effect(m, last, h, parent, len, tail_size).write is Ok,
    ensures
        ({
            let eff = upsert_effect(m, last, h, parent, len, tail_size);
            read_of(eff.refs, h) == ReadView::Stored {
                settings: eff.write->Ok_0.settings,
                length: len,
                parent,
            }
        }),
{
    crate::collection::lemma_upsert_entry(m, h, parent, len);
    let m1 = m.after_put(h, parent, len);
    let e = m1.entry(h);
    if e.chunk_settings is None {
        let w = placement(last, tail_size)->Ok_0;
        let e2 = EntryView { chunk_settings: Some(w.settings), ..e };
        crate::collection::lemma_upsert_keeps(m1, h, e2);
    }
}

/// Stored posts never share bytes: where no two entries own overlapping
/// ranges, and every range ends within its chunk's file (no range lies past
/// the tail, and ranges in the tail end before `tail_size`), a put or an
/// update leaves no two entries with overlapping ranges.
pub proof fn lemma_upsert_keeps_ranges_disjoint(
    m: RefsModel,
    last: Chunk,
    h: Seq<char>,
    parent: Seq<char>,
    len: u64,
    tail_size: Option<u64>,
)
    requires
        m.wf(),
        m.ranges_disjoint(),
        tail_size matches Some(t) ==> m.ranges_end_before(last.index, t),
    ensures
        upsert_effect(m, last, h, parent, len, tail_size).refs.ranges_disjoint(),
{
    crate::collection::lemma_put_keeps_ranges_disjoint(m, h, parent, len);
    crate::collection::lemma_upsert_entry(m, h, parent, len);
    let m1 = m.after_put(h, parent, len);
    let e = m1.entry(h);
    if e.chunk_settings is None {
        if let Ok(w) = placement(last, tail_size) {
            let t = tail_size->0;
            crate::collection::lemma_put_keeps_end_before(m, h, parent, len, last.index, t);
            let e2 = EntryView { chunk_settings: Some(w.settings), ..e };
            crate::collection::lemma_stamp_keeps_ranges_disjoint(m1, h, e2, last.index, t);
        }
    }
}

} // verus!
