use vstd::prelude::*;

use crate::db_post_ref::{ChunkSettings, DbPostRef, EntryView};
use crate::post::{message_bytes, Post, PostMessage};
use crate::serialized::{
    entry_of, record_of, DbPostRefSerialized, IndexCollection, PostHashes, RecordView,
};

verus! {

/// Hashes of the entries, in `hashes` order, whose parent is `parent`.
pub open spec fn replies_of(hashes: Seq<Seq<char>>, entries: Seq<EntryView>, parent: Seq<char>) -> Seq<
    Seq<char>,
>
    decreases hashes.len(),
{
    if hashes.len() == 0 {
        seq![]
    } else {
        let k = hashes.len() - 1;
        let rest = replies_of(hashes.drop_last(), entries, parent);
        if entries[k].parent_hash == parent {
            rest.push(hashes[k])
        } else {
            rest
        }
    }
}

/// Abstract value of a [`DbRefCollection`]: the hashes in observation order,
/// and the entry of each, at the same position.
pub ghost struct RefsModel {
    pub hashes: Seq<Seq<char>>,
    pub entries: Seq<EntryView>,
}

impl RefsModel {
    pub open spec fn empty() -> RefsModel {
        RefsModel { hashes: seq![], entries: seq![] }
    }

    pub open spec fn wf(self) -> bool {
        self.hashes.len() == self.entries.len() && self.hashes.no_duplicates()
    }

    pub open spec fn contains(self, h: Seq<char>) -> bool {
        self.hashes.contains(h)
    }

    pub open spec fn entry(self, h: Seq<char>) -> EntryView {
        self.entries[self.hashes.index_of(h)]
    }

    /// Hashes of the deleted entries.
    pub open spec fn deleted(self) -> Set<Seq<char>> {
        Set::new(|h: Seq<char>| self.contains(h) && self.entry(h).deleted)
    }

    /// Hashes of the deleted entries whose byte range can be reused.
    pub open spec fn free(self) -> Set<Seq<char>> {
        Set::new(|h: Seq<char>| self.contains(h) && self.entry(h).is_free())
    }

    /// Hashes of the replies to `parent`, in observation order.
    pub open spec fn replies(self, parent: Seq<char>) -> Seq<Seq<char>> {
        replies_of(self.hashes, self.entries, parent)
    }

    /// Puts `e` under `h`: in place where `h` is known, else at the end.
    pub open spec fn upsert(self, h: Seq<char>, e: EntryView) -> RefsModel {
        if self.contains(h) {
            RefsModel {
                hashes: self.hashes,
                entries: self.entries.update(self.hashes.index_of(h), e),
            }
        } else {
            RefsModel { hashes: self.hashes.push(h), entries: self.entries.push(e) }
        }
    }

    /// Entry `i` is a hole that can take `len` bytes.
    pub open spec fn fits(self, i: int, len: nat) -> bool {
        0 <= i < self.entries.len() && self.entries[i].is_free() && self.entries[i].length >= len
    }

    /// The first hole among the first `k` entries with the least room that
    /// still takes `len` bytes.
    pub open spec fn best_fit_upto(self, k: int, len: nat) -> Option<int>
        decreases k,
    {
        if k <= 0 {
            None
        } else {
            let prev = self.best_fit_upto(k - 1, len);
            if self.fits(k - 1, len) && (prev is None || self.entries[k - 1].length
                < self.entries[prev->0].length) {
                Some(k - 1)
            } else {
                prev
            }
        }
    }

    /// The hole that a message of `len` bytes goes into, if any.
    pub open spec fn best_fit(self, len: nat) -> Option<int> {
        self.best_fit_upto(self.entries.len() as int, len)
    }

    /// Entry `d` after its range went to another post.
    pub open spec fn reclaimed(self, d: int) -> RefsModel {
        RefsModel {
            hashes: self.hashes,
            entries: self.entries.update(
                d,
                EntryView { chunk_settings: None, length: 0, ..self.entries[d] },
            ),
        }
    }

    /// The entry that `put_post` makes for a message of `len` bytes.
    pub open spec fn placed_entry(self, parent: Seq<char>, len: u64) -> EntryView {
        EntryView {
            chunk_settings: match self.best_fit(len as nat) {
                Some(d) => self.entries[d].chunk_settings,
                None => None,
            },
            length: len,
            deleted: false,
            parent_hash: parent,
        }
    }

    /// The collection after `put_post` of a message of `len` bytes.
    pub open spec fn after_put(self, h: Seq<char>, parent: Seq<char>, len: u64) -> RefsModel {
        let e = self.placed_entry(parent, len);
        match self.best_fit(len as nat) {
            Some(d) => self.reclaimed(d).upsert(h, e),
            None => self.upsert(h, e),
        }
    }

    /// The diff records that `put_post` appends.
    pub open spec fn put_records(self, h: Seq<char>, parent: Seq<char>, len: u64) -> Seq<RecordView> {
        let e = self.placed_entry(parent, len);
        let own = seq![record_of((h, parent), e)];
        match self.best_fit(len as nat) {
            Some(d) => seq![
                record_of(
                    (self.hashes[d], self.entries[d].parent_hash),
                    self.reclaimed(d).entries[d],
                ),
            ] + own,
            None => own,
        }
    }

    /// The collection after folding `records` into it in order; `None` where one is malformed.
    pub open spec fn apply_records(self, records: Seq<RecordView>) -> Option<RefsModel>
        decreases records.len(),
    {
        if records.len() == 0 {
            Some(self)
        } else {
            match self.apply_records(records.drop_last()) {
                Some(m) => match entry_of(records.last()) {
                    Some(p) => Some(m.upsert(p.0.0, p.1)),
                    None => None,
                },
                None => None,
            }
        }
    }
}

/// Snapshot records first, then diff records: the later record of a hash wins.
pub open spec fn load(snapshot: Seq<RecordView>, diff: Seq<RecordView>) -> Option<RefsModel> {
    match RefsModel::empty().apply_records(snapshot) {
        Some(m) => m.apply_records(diff),
        None => None,
    }
}

pub open spec fn records_view(v: Seq<DbPostRefSerialized>) -> Seq<RecordView> {
    v.map_values(|r: DbPostRefSerialized| r@)
}

#[derive(Debug, Clone, Copy, PartialEq, Eq)]
pub enum DbRefCollectionError {
    /// No entry has the given hash.
    PostDoesntExist,
    /// The entry is deleted already.
    PostAlreadyDeleted,
    /// A snapshot or diff record names a malformed chunk file.
    MalformedRecord,
}

/// The in-memory index of the posts: each hash with its entry, in observation
/// order. The deleted set, the free set and the reply lists are read off the
/// entries. Every mutation is also recorded as a diff record, kept until
/// `take_diff` hands it out to be made durable.
///
/// Hashes are text, and a map keyed by `String` comes with no specification
/// that a proof could use; so the entries sit in two vectors, position for
/// position, looked up by a scan. The order of the vectors is the
/// observation order itself.
pub struct DbRefCollection {
    ordered: Vec<String>,
    refs: Vec<DbPostRef>,
    diff: Vec<DbPostRefSerialized>,
}

impl View for DbRefCollection {
    type V = RefsModel;

    closed spec fn view(&self) -> RefsModel {
        RefsModel {
            hashes: self.ordered@.map_values(|s: String| s@),
            entries: self.refs@.map_values(|r: DbPostRef| r@),
        }
    }
}

proof fn lemma_index_of_unique(s: Seq<Seq<char>>, i: int)
    requires
        s.no_duplicates(),
        0 <= i < s.len(),
    ensures
        s.contains(s[i]),
        s.index_of(s[i]) == i,
{
    assert(s.contains(s[i]));
    let j = s.index_of(s[i]);
    assert(s[j] == s[i]);
}

proof fn lemma_upsert_wf(m: RefsModel, h: Seq<char>, e: EntryView)
    requires
        m.wf(),
    ensures
        m.upsert(h, e).wf(),
        m.upsert(h, e).contains(h),
        m.upsert(h, e).entry(h) == e,
        forall|g: Seq<char>| g != h ==> m.upsert(h, e).contains(g) == m.contains(g),
        forall|g: Seq<char>| g != h && m.contains(g) ==> m.upsert(h, e).entry(g) == m.entry(g),
{
    let u = m.upsert(h, e);
    if m.contains(h) {
        let i = m.hashes.index_of(h);
        assert(m.hashes[i] == h);
        assert forall|g: Seq<char>| g != h && m.contains(g) implies u.entry(g) == m.entry(g) by {
            let j = m.hashes.index_of(g);
            assert(m.hashes[j] == g);
        }
    } else {
        let n = m.hashes.len() as int;
        assert(u.hashes[n] == h);
        assert forall|a: int, b: int| 0 <= a < b < u.hashes.len() implies u.hashes[a]
            != u.hashes[b] by {
            if b == n {
                assert(m.hashes[a] == u.hashes[a]);
                if u.hashes[a] == h {
                    assert(m.hashes.contains(h));
                }
            }
        }
        lemma_index_of_unique(u.hashes, n);
        assert forall|g: Seq<char>| g != h implies u.contains(g) == m.contains(g) by {
            if u.contains(g) {
                let j = u.hashes.index_of(g);
                assert(u.hashes[j] == g);
                assert(j != n);
                assert(m.hashes[j] == g);
            }
            if m.contains(g) {
                let j = m.hashes.index_of(g);
                assert(u.hashes[j] == g);
            }
        }
        assert forall|g: Seq<char>| g != h && m.contains(g) implies u.entry(g) == m.entry(g) by {
            let j = m.hashes.index_of(g);
            assert(m.hashes[j] == g);
            assert(u.hashes[j] == g);
            lemma_index_of_unique(u.hashes, j);
        }
    }
}

proof fn lemma_best_fit_min(m: RefsModel, k: int, len: nat)
    requires
        0 <= k <= m.entries.len(),
    ensures
        m.best_fit_upto(k, len) matches Some(d) ==> 0 <= d < k && m.fits(d, len) && forall|i: int|
            0 <= i < k && #[trigger] m.fits(i, len) ==> m.entries[i].length >= m.entries[d].length,
        m.best_fit_upto(k, len) is None ==> forall|i: int| 0 <= i < k ==> !#[trigger] m.fits(i, len),
    decreases k,
{
    if k > 0 {
        lemma_best_fit_min(m, k - 1, len);
    }
}

impl DbRefCollection {
    /// The diff records appended since the collection was built or last drained.
    pub closed spec fn diff_records(&self) -> Seq<RecordView> {
        records_view(self.diff@)
    }

    fn position(&self, hash: &str) -> (r: Option<usize>)
        requires
            self@.wf(),
        ensures
            r is None <==> !self@.contains(hash@),
            r matches Some(i) ==> i < self@.hashes.len() && self@.hashes[i as int] == hash@
                && self@.hashes.index_of(hash@) == i,
    {
        let key = hash.to_owned();
        let mut i: usize = 0;
        while i < self.ordered.len()
            invariant
                self@.wf(),
                key@ == hash@,
                i <= self.ordered@.len(),
                forall|j: int| 0 <= j < i ==> self@.hashes[j] != hash@,
            decreases self.ordered@.len() - i,
        {
            if self.ordered[i] == key {
                proof {
                    lemma_index_of_unique(self@.hashes, i as int);
                }
                return Some(i);
            }
            i = i + 1;
        }
        proof {
            if self@.contains(hash@) {
                let j = self@.hashes.index_of(hash@);
                assert(self@.hashes[j] == hash@);
            }
        }
        None
    }

    /// Builds the collection from the snapshot records, then the records
    /// drained from the diff log; the later record of a hash wins. Fails where
    /// a record names a malformed chunk file. Nothing is added to the diff.
    pub fn new(index_collection: IndexCollection, diff_records: Vec<DbPostRefSerialized>) -> (r:
        Result<Self, DbRefCollectionError>)
        ensures
            r is Ok <==> load(records_view(index_collection.indexes@), records_view(diff_records@))
                is Some,
            r matches Ok(c) ==> c@.wf() && Some(c@) == load(
                records_view(index_collection.indexes@),
                records_view(diff_records@),
            ) && c.diff_records() == Seq::<RecordView>::empty(),
    {
        let mut refr = DbRefCollection { ordered: Vec::new(), refs: Vec::new(), diff: Vec::new() };
        assert(refr@.hashes =~= RefsModel::empty().hashes);
        assert(refr@.entries =~= RefsModel::empty().entries);
        assert(records_view(refr.diff@) =~= Seq::<RecordView>::empty());
        match refr.apply_serialized_posts(&index_collection.indexes) {
            Ok(_) => {},
            Err(e) => {
                return Err(e);
            },
        }
        match refr.apply_serialized_posts(&diff_records) {
            Ok(_) => {},
            Err(e) => {
                return Err(e);
            },
        }
        Ok(refr)
    }

    /// Folds records into the collection in order, without touching the diff.
    fn apply_serialized_posts(&mut self, posts: &Vec<DbPostRefSerialized>) -> (r: Result<
        (),
        DbRefCollectionError,
    >)
        requires
            old(self)@.wf(),
        ensures
            r is Ok <==> old(self)@.apply_records(records_view(posts@)) is Some,
            r is Ok ==> Some(final(self)@) == old(self)@.apply_records(records_view(posts@)),
            r == Err::<(), DbRefCollectionError>(DbRefCollectionError::MalformedRecord) || r is Ok,
            final(self)@.wf(),
            final(self).diff_records() == old(self).diff_records(),
    {
        let ghost start = self@;
        let mut i: usize = 0;
        while i < posts.len()
            invariant
                i <= posts@.len(),
                self@.wf(),
                self.diff_records() == old(self).diff_records(),
                start == old(self)@,
                start.apply_records(records_view(posts@).subrange(0, i as int)) == Some(self@),
            decreases posts@.len() - i,
        {
            let ghost before = self@;
            let rec = posts[i].clone_record();
            proof {
                let s = records_view(posts@).subrange(0, i + 1);
                assert(s.drop_last() =~= records_view(posts@).subrange(0, i as int));
                assert(s.last() == rec@);
            }
            match rec.split() {
                Some((hashes, entry)) => {
                    self.upsert_ref(&hashes, entry);
                },
                None => {
                    proof {
                        let all = records_view(posts@);
                        lemma_apply_prefix_none(start, all, i as int + 1);
                    }
                    return Err(DbRefCollectionError::MalformedRecord);
                },
            }
            i = i + 1;
        }
        assert(records_view(posts@).subrange(0, i as int) =~= records_view(posts@));
        Ok(())
    }

    /// Puts `post` under `hashes.hash`: appended where the hash is new,
    /// replaced in place where it is known. The entry is stored as given; the
    /// reply lists follow the parents of the entries.
    pub fn upsert_ref(&mut self, hashes: &PostHashes, post: DbPostRef)
        requires
            old(self)@.wf(),
        ensures
            final(self)@ == old(self)@.upsert(hashes.hash@, post@),
            final(self)@.wf(),
            final(self).diff_records() == old(self).diff_records(),
    {
        let ghost e = post@;
        proof {
            lemma_upsert_wf(self@, hashes.hash@, e);
        }
        match self.position(hashes.hash.as_str()) {
            Some(i) => {
                self.refs.set(i, post);
                assert(self@.hashes =~= old(self)@.upsert(hashes.hash@, e).hashes);
                assert(self@.entries =~= old(self)@.upsert(hashes.hash@, e).entries);
            },
            None => {
                self.ordered.push(hashes.hash.clone());
                self.refs.push(post);
                assert(self@.hashes =~= old(self)@.upsert(hashes.hash@, e).hashes);
                assert(self@.entries =~= old(self)@.upsert(hashes.hash@, e).entries);
            },
        }
    }

    fn push_diff(&mut self, hashes: &PostHashes, db_ref: &DbPostRef)
        ensures
            final(self)@ == old(self)@,
            final(self).diff_records() == old(self).diff_records().push(
                record_of(hashes@, db_ref@),
            ),
    {
        let rec = DbPostRefSerialized::new(hashes, db_ref);
        self.diff.push(rec);
        assert(records_view(self.diff@) =~= records_view(old(self).diff@).push(
            record_of(hashes@, db_ref@),
        ));
    }

    /// The entry stored under `hash`.
    pub fn get_ref(&self, hash: &str) -> (r: Option<&DbPostRef>)
        requires
            self@.wf(),
        ensures
            r is Some <==> self@.contains(hash@),
            r matches Some(e) ==> e@ == self@.entry(hash@),
    {
        match self.position(hash) {
            Some(i) => Some(&self.refs[i]),
            None => None,
        }
    }

    pub fn ref_exists(&self, hash: &str) -> (r: bool)
        requires
            self@.wf(),
        ensures
            r == self@.contains(hash@),
    {
        self.position(hash).is_some()
    }

    /// Whether an entry exists under `hash` and is deleted.
    pub fn ref_deleted(&self, hash: &str) -> (r: bool)
        requires
            self@.wf(),
        ensures
            r == (self@.contains(hash@) && self@.entry(hash@).deleted),
    {
        match self.get_ref(hash) {
            Some(e) => e.deleted,
            None => false,
        }
    }

    /// Position of the hole that a message of `post_length` bytes goes into:
    /// the first, in observation order, of the holes with the least room
    /// that still take the message.
    fn find_best_free_ref(&self, post_length: u64) -> (r: Option<usize>)
        requires
            self@.wf(),
        ensures
            r is None <==> self@.best_fit(post_length as nat) is None,
            r matches Some(i) ==> self@.best_fit(post_length as nat) == Some(i as int),
    {
        let mut best: Option<usize> = None;
        let mut i: usize = 0;
        while i < self.refs.len()
            invariant
                self@.wf(),
                i <= self.refs@.len(),
                best is None <==> self@.best_fit_upto(i as int, post_length as nat) is None,
                best matches Some(b) ==> self@.best_fit_upto(i as int, post_length as nat) == Some(
                    b as int,
                ),
            decreases self.refs@.len() - i,
        {
            proof {
                lemma_best_fit_min(self@, i as int, post_length as nat);
            }
            let e = &self.refs[i];
            if e.is_free() && e.length >= post_length {
                match best {
                    None => {
                        best = Some(i);
                    },
                    Some(b) => {
                        if e.length < self.refs[b].length {
                            best = Some(i);
                        }
                    },
                }
            }
            i = i + 1;
        }
        best
    }

    /// Hash of the hole that a message of `post_bytes` goes into, if any.
    pub fn find_free_ref(&self, post_bytes: &[u8]) -> (r: Option<String>)
        requires
            self@.wf(),
        ensures
            match self@.best_fit(post_bytes@.len()) {
                Some(d) => r matches Some(h) && h@ == self@.hashes[d],
                None => r is None,
            },
    {
        proof {
            lemma_best_fit_min(self@, self@.entries.len() as int, post_bytes@.len());
        }
        let len = post_bytes.len() as u64;
        assert(len as nat == post_bytes@.len());
        match self.find_best_free_ref(len) {
            Some(d) => Some(self.ordered[d].clone()),
            None => None,
        }
    }

    /// Hands the best-fitting hole to `post_ref`: the donor loses its range
    /// and its length, and the change goes to the diff.
    fn put_ref_into_free_chunk(&mut self, post_ref: &mut DbPostRef, len: u64)
        requires
            old(self)@.wf(),
            old(post_ref).chunk_settings is None,
        ensures
            final(self)@.wf(),
            match old(self)@.best_fit(len as nat) {
                Some(d) => {
                    &&& final(self)@ == old(self)@.reclaimed(d)
                    &&& final(post_ref)@ == EntryView {
                        chunk_settings: old(self)@.entries[d].chunk_settings,
                        ..old(post_ref)@
                    }
                    &&& final(self).diff_records() == old(self).diff_records().push(
                        record_of(
                            (old(self)@.hashes[d], old(self)@.entries[d].parent_hash),
                            old(self)@.reclaimed(d).entries[d],
                        ),
                    )
                },
                None => {
                    &&& final(self)@ == old(self)@
                    &&& final(post_ref)@ == old(post_ref)@
                    &&& final(self).diff_records() == old(self).diff_records()
                },
            },
    {
        let d = match self.find_best_free_ref(len) {
            Some(d) => d,
            None => {
                return;
            },
        };
        proof {
            lemma_best_fit_min(self@, self@.entries.len() as int, len as nat);
        }
        post_ref.chunk_settings = self.refs[d].chunk_settings;
        assert(post_ref@ == EntryView {
            chunk_settings: old(self)@.entries[d as int].chunk_settings,
            ..old(post_ref)@
        });
        let mut donor = self.refs[d].clone_ref();
        donor.chunk_settings = None;
        donor.length = 0;
        assert(donor@ == old(self)@.reclaimed(d as int).entries[d as int]);
        let hashes = PostHashes { hash: self.ordered[d].clone(), parent: donor.parent_hash.clone() };
        self.push_diff(&hashes, &donor);
        self.refs.set(d, donor);
        assert(self@.hashes =~= old(self)@.reclaimed(d as int).hashes);
        assert(self@.entries =~= old(self)@.reclaimed(d as int).entries);
        assert(old(self)@.reclaimed(d as int).wf()) by {
            assert(old(self)@.reclaimed(d as int).hashes == old(self)@.hashes);
        }
    }

    /// Puts a post into the collection. Its message goes into the hole that
    /// fits it best, if one does; else its entry names no range yet, and the
    /// caller appends the message and stamps the range with
    /// `set_chunk_settings`. Returns the post's hash and message.
    pub fn put_post(&mut self, post: Post) -> (r: (String, PostMessage))
        requires
            old(self)@.wf(),
        ensures
            final(self)@.wf(),
            final(self)@ == old(self)@.after_put(
                post.hash@,
                post.reply_to@,
                message_bytes(post.message@).len() as u64,
            ),
            final(self).diff_records() == old(self).diff_records() + old(self)@.put_records(
                post.hash@,
                post.reply_to@,
                message_bytes(post.message@).len() as u64,
            ),
            r.0@ == post.hash@,
            r.1@ == post.message@,
    {
        let post_bytes = post.get_message_bytes();
        let len = post_bytes.len() as u64;
        let hashes = PostHashes { hash: post.hash.clone(), parent: post.reply_to.clone() };
        let mut post_ref = DbPostRef {
            chunk_settings: None,
            length: len,
            deleted: false,
            parent_hash: post.reply_to.clone(),
        };
        let ghost m0 = self@;
        self.put_ref_into_free_chunk(&mut post_ref, len);
        assert(post_ref@ == m0.placed_entry(post.reply_to@, len));
        let rec_ref = post_ref.clone_ref();
        self.upsert_ref(&hashes, post_ref);
        self.push_diff(&hashes, &rec_ref);
        assert(self.diff_records() =~= old(self).diff_records() + m0.put_records(
            post.hash@,
            post.reply_to@,
            len,
        ));
        (post.hash, post.message)
    }

    fn replace_entry(&mut self, i: usize, e: DbPostRef)
        requires
            old(self)@.wf(),
            i < old(self)@.hashes.len(),
        ensures
            final(self)@.wf(),
            final(self)@ == old(self)@.upsert(old(self)@.hashes[i as int], e@),
            final(self).diff_records() == old(self).diff_records().push(
                record_of((old(self)@.hashes[i as int], e.parent_hash@), e@),
            ),
    {
        proof {
            lemma_index_of_unique(self@.hashes, i as int);
            lemma_upsert_wf(self@, self@.hashes[i as int], e@);
        }
        let hashes = PostHashes { hash: self.ordered[i].clone(), parent: e.parent_hash.clone() };
        self.push_diff(&hashes, &e);
        self.refs.set(i, e);
        assert(self@.hashes =~= old(self)@.upsert(old(self)@.hashes[i as int], e@).hashes);
        assert(self@.entries =~= old(self)@.upsert(old(self)@.hashes[i as int], e@).entries);
    }

    /// Marks the entry under `hash` deleted. Its range stays until a later
    /// post reclaims it.
    pub fn delete_post(&mut self, hash: &str) -> (r: Result<(), DbRefCollectionError>)
        requires
            old(self)@.wf(),
        ensures
            final(self)@.wf(),
            !old(self)@.contains(hash@) ==> r == Err::<(), DbRefCollectionError>(
                DbRefCollectionError::PostDoesntExist,
            ),
            old(self)@.contains(hash@) && old(self)@.entry(hash@).deleted ==> r == Err::<
                (),
                DbRefCollectionError,
            >(DbRefCollectionError::PostAlreadyDeleted),
            r is Err ==> final(self)@ == old(self)@ && final(self).diff_records() == old(
                self,
            ).diff_records(),
            r is Ok <==> old(self)@.contains(hash@) && !old(self)@.entry(hash@).deleted,
            r is Ok ==> {
                let e = EntryView { deleted: true, ..old(self)@.entry(hash@) };
                &&& final(self)@ == old(self)@.upsert(hash@, e)
                &&& final(self).diff_records() == old(self).diff_records().push(
                    record_of((hash@, e.parent_hash), e),
                )
            },
    {
        let i = match self.position(hash) {
            Some(i) => i,
            None => {
                return Err(DbRefCollectionError::PostDoesntExist);
            },
        };
        if self.refs[i].deleted {
            return Err(DbRefCollectionError::PostAlreadyDeleted);
        }
        let mut e = self.refs[i].clone_ref();
        e.deleted = true;
        self.replace_entry(i, e);
        Ok(())
    }

    /// Stamps the range where the message of the entry under `hash` was
    /// written; the change goes to the diff.
    pub fn set_chunk_settings(&mut self, hash: &str, settings: ChunkSettings)
        requires
            old(self)@.wf(),
            old(self)@.contains(hash@),
        ensures
            final(self)@.wf(),
            ({
                let e = EntryView { chunk_settings: Some(settings), ..old(self)@.entry(hash@) };
                &&& final(self)@ == old(self)@.upsert(hash@, e)
                &&& final(self).diff_records() == old(self).diff_records().push(
                    record_of((hash@, e.parent_hash), e),
                )
            }),
    {
        let i = match self.position(hash) {
            Some(i) => i,
            None => {
                return;
            },
        };
        let mut e = self.refs[i].clone_ref();
        e.chunk_settings = Some(settings);
        self.replace_entry(i, e);
    }

    /// The hashes in observation order.
    pub fn ordered(&self) -> (r: &Vec<String>)
        ensures
            r@.map_values(|s: String| s@) == self@.hashes,
    {
        &self.ordered
    }

    /// Hashes of the replies to `parent`, in observation order.
    pub fn replies(&self, parent: &str) -> (r: Vec<String>)
        requires
            self@.wf(),
        ensures
            r@.map_values(|s: String| s@) == self@.replies(parent@),
    {
        let key = parent.to_owned();
        let mut out: Vec<String> = Vec::new();
        let mut i: usize = 0;
        while i < self.refs.len()
            invariant
                self@.wf(),
                key@ == parent@,
                i <= self.refs@.len(),
                out@.map_values(|s: String| s@) == replies_of(
                    self@.hashes.subrange(0, i as int),
                    self@.entries,
                    parent@,
                ),
            decreases self.refs@.len() - i,
        {
            assert(self@.hashes.subrange(0, i + 1).drop_last() =~= self@.hashes.subrange(
                0,
                i as int,
            ));
            if self.refs[i].parent_hash == key {
                out.push(self.ordered[i].clone());
            }
            assert(out@.map_values(|s: String| s@) =~= replies_of(
                self@.hashes.subrange(0, i + 1),
                self@.entries,
                parent@,
            ));
            i = i + 1;
        }
        assert(self@.hashes.subrange(0, i as int) =~= self@.hashes);
        out
    }

    fn hashes_where(&self, only_free: bool) -> (r: Vec<String>)
        requires
            self@.wf(),
        ensures
            r@.map_values(|s: String| s@).no_duplicates(),
            forall|h: Seq<char>|
                r@.map_values(|s: String| s@).contains(h) <==> (if only_free {
                    self@.free().contains(h)
                } else {
                    self@.deleted().contains(h)
                }),
    {
        let ghost hs = self@.hashes;
        let ghost es = self@.entries;
        let mut out: Vec<String> = Vec::new();
        let ghost mut src: Seq<int> = seq![];
        let mut i: usize = 0;
        while i < self.refs.len()
            invariant
                self@.wf(),
                hs == self@.hashes,
                es == self@.entries,
                i <= self.refs@.len(),
                src.len() == out@.len(),
                forall|k: int|
                    0 <= k < src.len() ==> 0 <= #[trigger] src[k] < i && (if only_free {
                        es[src[k]].is_free()
                    } else {
                        es[src[k]].deleted
                    }) && out@[k]@ == hs[src[k]],
                forall|a: int, b: int| 0 <= a < b < src.len() ==> src[a] < src[b],
                forall|j: int|
                    0 <= j < i && (if only_free {
                        es[j].is_free()
                    } else {
                        es[j].deleted
                    }) ==> exists|k: int| 0 <= k < src.len() && #[trigger] src[k] == j,
            decreases self.refs@.len() - i,
        {
            let e = &self.refs[i];
            let take = if only_free {
                e.is_free()
            } else {
                e.deleted
            };
            if take {
                out.push(self.ordered[i].clone());
                proof {
                    let old_src = src;
                    src = src.push(i as int);
                    assert forall|j: int|
                        0 <= j < i + 1 && (if only_free {
                            es[j].is_free()
                        } else {
                            es[j].deleted
                        }) implies exists|k: int| 0 <= k < src.len() && #[trigger] src[k] == j by {
                        if j < i {
                            let k = choose|k: int| 0 <= k < old_src.len() && old_src[k] == j;
                            assert(src[k] == j);
                        } else {
                            assert(src[src.len() - 1] == j);
                        }
                    }
                }
            }
            i = i + 1;
        }
        proof {
            let v = out@.map_values(|s: String| s@);
            assert forall|a: int, b: int| 0 <= a < b < v.len() implies v[a] != v[b] by {
                assert(v[a] == hs[src[a]]);
                assert(v[b] == hs[src[b]]);
                assert(src[a] < src[b]);
            }
            assert forall|h: Seq<char>| v.contains(h) <==> (if only_free {
                self@.free().contains(h)
            } else {
                self@.deleted().contains(h)
            }) by {
                if v.contains(h) {
                    let k = choose|k: int| 0 <= k < v.len() && v[k] == h;
                    assert(out@[k]@ == h);
                    lemma_index_of_unique(hs, src[k]);
                }
                if self@.contains(h) {
                    let j = hs.index_of(h);
                    assert(hs[j] == h);
                    if (if only_free {
                        es[j].is_free()
                    } else {
                        es[j].deleted
                    }) {
                        let k = choose|k: int| 0 <= k < src.len() && #[trigger] src[k] == j;
                        assert(v[k] == h);
                    }
                }
            }
        }
        out
    }

    /// Hashes of the deleted entries, each once.
    pub fn deleted_hashes(&self) -> (r: Vec<String>)
        requires
            self@.wf(),
        ensures
            r@.map_values(|s: String| s@).no_duplicates(),
            forall|h: Seq<char>|
                r@.map_values(|s: String| s@).contains(h) <==> self@.deleted().contains(h),
    {
        self.hashes_where(false)
    }

    /// Hashes of the deleted entries whose range can be reused, each once.
    pub fn free_hashes(&self) -> (r: Vec<String>)
        requires
            self@.wf(),
        ensures
            r@.map_values(|s: String| s@).no_duplicates(),
            forall|h: Seq<char>|
                r@.map_values(|s: String| s@).contains(h) <==> self@.free().contains(h),
    {
        self.hashes_where(true)
    }

    /// The diff records not yet handed out.
    pub fn diff(&self) -> (r: &Vec<DbPostRefSerialized>)
        ensures
            records_view(r@) == self.diff_records(),
    {
        &self.diff
    }

    /// Hands out the diff records, oldest first, and forgets them.
    pub fn take_diff(&mut self) -> (r: Vec<DbPostRefSerialized>)
        ensures
            records_view(r@) == old(self).diff_records(),
            final(self).diff_records() == Seq::<RecordView>::empty(),
            final(self)@ == old(self)@,
    {
        let out = self.diff.split_off(0);
        assert(records_view(self.diff@) =~= Seq::<RecordView>::empty());
        out
    }
}

proof fn lemma_apply_prefix_none(m: RefsModel, recs: Seq<RecordView>, k: int)
    requires
        0 < k <= recs.len(),
        m.apply_records(recs.subrange(0, k - 1)) is Some,
        entry_of(recs[k - 1]) is None,
    ensures
        m.apply_records(recs) is None,
    decreases recs.len() - k,
{
    let s = recs.subrange(0, k);
    assert(s.drop_last() =~= recs.subrange(0, k - 1));
    assert(m.apply_records(s) is None);
    lemma_apply_none_extends(m, recs, k);
}

proof fn lemma_apply_none_extends(m: RefsModel, recs: Seq<RecordView>, k: int)
    requires
        0 <= k <= recs.len(),
        m.apply_records(recs.subrange(0, k)) is None,
    ensures
        m.apply_records(recs) is None,
    decreases recs.len() - k,
{
    if k == recs.len() {
        assert(recs.subrange(0, k) =~= recs);
    } else {
        let s = recs.subrange(0, k + 1);
        assert(s.drop_last() =~= recs.subrange(0, k));
        lemma_apply_none_extends(m, recs, k + 1);
    }
}

/// `x` stands at exactly one position of `s`.
pub open spec fn occurs_once(s: Seq<Seq<char>>, x: Seq<char>) -> bool {
    exists|i: int|
        0 <= i < s.len() && s[i] == x && forall|j: int| 0 <= j < s.len() && s[j] == x ==> j == i
}

proof fn lemma_once_if_unique(s: Seq<Seq<char>>, x: Seq<char>)
    requires
        s.no_duplicates(),
        s.contains(x),
    ensures
        occurs_once(s, x),
{
    let i = s.index_of(x);
    assert(s[i] == x);
    assert(forall|j: int| 0 <= j < s.len() && s[j] == x ==> j == i);
}

proof fn lemma_replies_of(hs: Seq<Seq<char>>, es: Seq<EntryView>, p: Seq<char>)
    requires
        hs.no_duplicates(),
    ensures
        replies_of(hs, es, p).no_duplicates(),
        forall|x: Seq<char>|
            replies_of(hs, es, p).contains(x) <==> exists|j: int|
                0 <= j < hs.len() && hs[j] == x && #[trigger] es[j].parent_hash == p,
    decreases hs.len(),
{
    if hs.len() > 0 {
        let k = hs.len() - 1;
        let front = hs.drop_last();
        lemma_replies_of(front, es, p);
        let rest = replies_of(front, es, p);
        let r = replies_of(hs, es, p);
        assert forall|x: Seq<char>| r.contains(x) <==> exists|j: int|
            0 <= j < hs.len() && hs[j] == x && #[trigger] es[j].parent_hash == p by {
            if r.contains(x) {
                if rest.contains(x) {
                    let j = choose|j: int|
                        0 <= j < front.len() && front[j] == x && #[trigger] es[j].parent_hash == p;
                    assert(hs[j] == x);
                } else {
                    let i = choose|i: int| 0 <= i < r.len() && r[i] == x;
                    assert(i == rest.len());
                    assert(hs[k] == x && es[k].parent_hash == p);
                }
            }
            if exists|j: int| 0 <= j < hs.len() && hs[j] == x && #[trigger] es[j].parent_hash == p {
                let j = choose|j: int|
                    0 <= j < hs.len() && hs[j] == x && #[trigger] es[j].parent_hash == p;
                if j < k {
                    assert(front[j] == x);
                    assert(rest.contains(x));
                    let i = choose|i: int| 0 <= i < rest.len() && rest[i] == x;
                    assert(r[i] == x);
                } else {
                    assert(r[r.len() - 1] == x);
                }
            }
        }
        if es[k].parent_hash == p {
            assert(!rest.contains(hs[k])) by {
                if rest.contains(hs[k]) {
                    let j = choose|j: int|
                        0 <= j < front.len() && front[j] == hs[k] && #[trigger] es[j].parent_hash
                            == p;
                    assert(hs[j] == hs[k]);
                }
            }
            assert forall|a: int, b: int| 0 <= a < b < r.len() implies r[a] != r[b] by {
                if b == r.len() - 1 {
                    assert(rest.contains(r[a]));
                }
            }
        }
    }
}

/// Every known hash stands exactly once in the observation order, and exactly
/// once among the replies to its parent.
pub proof fn lemma_hash_listed_once(m: RefsModel, h: Seq<char>)
    requires
        m.wf(),
        m.contains(h),
    ensures
        occurs_once(m.hashes, h),
        occurs_once(m.replies(m.entry(h).parent_hash), h),
{
    lemma_once_if_unique(m.hashes, h);
    let i = m.hashes.index_of(h);
    assert(m.hashes[i] == h);
    lemma_replies_of(m.hashes, m.entries, m.entry(h).parent_hash);
    assert(m.entries[i].parent_hash == m.entry(h).parent_hash);
    lemma_once_if_unique(m.replies(m.entry(h).parent_hash), h);
}

/// A free hash is deleted and still owns a non-empty range; a deleted hash
/// that is not free owns no range or an empty one. Free hashes are deleted,
/// and deleted hashes are known.
pub proof fn lemma_free_and_deleted(m: RefsModel, h: Seq<char>)
    ensures
        m.free().contains(h) ==> m.entry(h).deleted && m.entry(h).chunk_settings is Some
            && m.entry(h).length > 0,
        m.deleted().contains(h) && !m.free().contains(h) ==> m.entry(h).chunk_settings is None
            || m.entry(h).length == 0,
        m.free().subset_of(m.deleted()),
        m.deleted().subset_of(Set::new(|g: Seq<char>| m.contains(g))),
{
}

/// A message longer than every hole gets no reclaimed range: it goes to the
/// tail of the chunk sequence, and no other entry changes.
pub proof fn lemma_put_without_fit(m: RefsModel, h: Seq<char>, parent: Seq<char>, len: u64)
    requires
        m.wf(),
        forall|i: int| 0 <= i < m.entries.len() && #[trigger] m.entries[i].is_free() ==> m.entries[i].length < len,
    ensures
        m.best_fit(len as nat) is None,
        m.after_put(h, parent, len) == m.upsert(h, m.placed_entry(parent, len)),
        m.after_put(h, parent, len).entry(h).chunk_settings is None,
{
    lemma_best_fit_min(m, m.entries.len() as int, len as nat);
    if let Some(d) = m.best_fit(len as nat) {
        assert(m.fits(d, len as nat));
    }
    lemma_upsert_wf(m, h, m.placed_entry(parent, len));
}

/// A message exactly as long as some hole fills a hole of its length: the
/// new entry takes that hole's range, and the donor keeps no range.
pub proof fn lemma_put_exact_fit(m: RefsModel, h: Seq<char>, parent: Seq<char>, len: u64, j: int)
    requires
        m.wf(),
        m.fits(j, len as nat),
        m.entries[j].length == len,
    ensures
        m.best_fit(len as nat) matches Some(d) && {
            let after = m.after_put(h, parent, len);
            &&& m.entries[d].length == len
            &&& m.entries[d].chunk_settings is Some
            &&& after.entry(h).chunk_settings == m.entries[d].chunk_settings
            &&& after.entry(h).length == len
            &&& m.hashes[d] != h ==> after.entry(m.hashes[d]).chunk_settings is None
                && after.entry(m.hashes[d]).length == 0
        },
{
    lemma_best_fit_min(m, m.entries.len() as int, len as nat);
    let d = m.best_fit(len as nat)->0;
    let r = m.reclaimed(d);
    assert(r.hashes == m.hashes);
    assert(r.wf());
    assert(m.fits(d, len as nat));
    assert(m.entries[j].length >= m.entries[d].length);
    assert(m.entries[d].length == len);
    let e = m.placed_entry(parent, len);
    assert(e.chunk_settings == m.entries[d].chunk_settings);
    lemma_upsert_wf(r, h, e);
    let after = m.after_put(h, parent, len);
    assert(after == r.upsert(h, e));
    assert(after.entry(h) == e);
    if m.hashes[d] != h {
        lemma_index_of_unique(m.hashes, d);
        assert(r.contains(m.hashes[d]));
        assert(r.entry(m.hashes[d]) == r.entries[d]);
        assert(after.entry(m.hashes[d]) == r.entries[d]);
    }
}

/// A put leaves a well-formed collection whose entry under `h` is the
/// placed entry.
pub proof fn lemma_upsert_entry(m: RefsModel, h: Seq<char>, parent: Seq<char>, len: u64)
    requires
        m.wf(),
    ensures
        m.after_put(h, parent, len).wf(),
        m.after_put(h, parent, len).contains(h),
        m.after_put(h, parent, len).entry(h) == m.placed_entry(parent, len),
{
    let e = m.placed_entry(parent, len);
    lemma_best_fit_min(m, m.entries.len() as int, len as nat);
    match m.best_fit(len as nat) {
        Some(d) => {
            let r = m.reclaimed(d);
            assert(r.hashes == m.hashes);
            assert(r.wf());
            lemma_upsert_wf(r, h, e);
        },
        None => {
            lemma_upsert_wf(m, h, e);
        },
    }
}

/// Upserting into a well-formed collection keeps it well formed and stores
/// the entry under its hash.
pub proof fn lemma_upsert_keeps(m: RefsModel, h: Seq<char>, e: EntryView)
    requires
        m.wf(),
    ensures
        m.upsert(h, e).wf(),
        m.upsert(h, e).contains(h),
        m.upsert(h, e).entry(h) == e,
{
    lemma_upsert_wf(m, h, e);
}

/// Two entries own overlapping, non-empty byte ranges of one chunk.
pub open spec fn ranges_overlap(a: EntryView, b: EntryView) -> bool {
    match (a.chunk_settings, b.chunk_settings) {
        (Some(sa), Some(sb)) => sa.chunk_index == sb.chunk_index && a.length > 0 && b.length > 0
            && sa.offset < sb.offset + b.length && sb.offset < sa.offset + a.length,
        _ => false,
    }
}

impl RefsModel {
    /// No two entries own overlapping byte ranges.
    pub open spec fn ranges_disjoint(self) -> bool {
        forall|i: int, j: int|
            0 <= i < self.entries.len() && 0 <= j < self.entries.len() && i != j ==> !ranges_overlap(
                #[trigger] self.entries[i],
                #[trigger] self.entries[j],
            )
    }

    /// Every range in chunk `c` ends at or before `end`, and no range lies in
    /// a chunk after `c`.
    pub open spec fn ranges_end_before(self, c: u64, end: u64) -> bool {
        forall|i: int|
            0 <= i < self.entries.len() && #[trigger] self.entries[i].chunk_settings is Some ==> {
                let s = self.entries[i].chunk_settings->0;
                s.chunk_index <= c && (s.chunk_index == c ==> s.offset + self.entries[i].length
                    <= end)
            }
    }
}

/// Replacing entry `k` by one whose range lies inside the range that entry
/// `d` owned (or by one without a range), while `d` gives its range up, keeps
/// ranges disjoint.
proof fn lemma_replace_inside(m: RefsModel, n: RefsModel, k: int, d: Option<int>)
    requires
        m.ranges_disjoint(),
        n.entries.len() == m.entries.len() ==> 0 <= k < m.entries.len(),
        n.entries.len() == m.entries.len() + 1 ==> k == m.entries.len(),
        n.entries.len() == m.entries.len() || n.entries.len() == m.entries.len() + 1,
        d matches Some(dd) ==> 0 <= dd < m.entries.len(),
        forall|i: int|
            0 <= i < n.entries.len() && i != k && (d matches Some(dd) ==> i != dd) ==> #[trigger] n.entries[i]
                == m.entries[i],
        d matches Some(dd) ==> dd != k ==> n.entries[dd].chunk_settings is None,
        match d {
            Some(dd) => n.entries[k].chunk_settings is None || (n.entries[k].chunk_settings
                == m.entries[dd].chunk_settings && n.entries[k].length <= m.entries[dd].length),
            None => n.entries[k].chunk_settings is None,
        },
    ensures
        n.ranges_disjoint(),
{
    assert forall|i: int, j: int|
        0 <= i < n.entries.len() && 0 <= j < n.entries.len() && i != j implies !ranges_overlap(
        #[trigger] n.entries[i],
        #[trigger] n.entries[j],
    ) by {
        if i == k || j == k {
            let o = if i == k {
                j
            } else {
                i
            };
            if let Some(dd) = d {
                if o != dd && n.entries[k].chunk_settings is Some {
                    assert(n.entries[o] == m.entries[o]);
                    assert(!ranges_overlap(m.entries[dd], m.entries[o]));
                    assert(!ranges_overlap(n.entries[k], n.entries[o]));
                }
            }
        } else {
            if let Some(dd) = d {
                if i != dd && j != dd {
                    assert(n.entries[i] == m.entries[i]);
                    assert(n.entries[j] == m.entries[j]);
                }
            } else {
                assert(n.entries[i] == m.entries[i]);
                assert(n.entries[j] == m.entries[j]);
            }
        }
    }
}

/// A put keeps ranges disjoint: a reclaimed hole goes whole or in part to
/// the new entry and leaves its donor.
pub proof fn lemma_put_keeps_ranges_disjoint(m: RefsModel, h: Seq<char>, parent: Seq<char>, len: u64)
    requires
        m.wf(),
        m.ranges_disjoint(),
    ensures
        m.after_put(h, parent, len).ranges_disjoint(),
{
    lemma_best_fit_min(m, m.entries.len() as int, len as nat);
    let e = m.placed_entry(parent, len);
    let after = m.after_put(h, parent, len);
    let base = match m.best_fit(len as nat) {
        Some(d) => m.reclaimed(d),
        None => m,
    };
    assert(base.hashes == m.hashes);
    let k = if m.contains(h) {
        m.hashes.index_of(h)
    } else {
        m.entries.len() as int
    };
    if m.contains(h) {
        assert(m.hashes[k] == h);
    }
    assert(after == base.upsert(h, e));
    lemma_replace_inside(m, after, k, m.best_fit(len as nat));
}

/// Stamping a range that starts past every range of its chunk, in a chunk no
/// range lies after, keeps ranges disjoint.
pub proof fn lemma_stamp_keeps_ranges_disjoint(m: RefsModel, h: Seq<char>, e: EntryView, c: u64, end: u64)
    requires
        m.wf(),
        m.ranges_disjoint(),
        m.ranges_end_before(c, end),
        e.chunk_settings matches Some(s) && s.chunk_index >= c && (s.chunk_index == c ==> s.offset >= end),
    ensures
        m.upsert(h, e).ranges_disjoint(),
{
    let n = m.upsert(h, e);
    let k = if m.contains(h) {
        m.hashes.index_of(h)
    } else {
        m.entries.len() as int
    };
    if m.contains(h) {
        assert(m.hashes[k] == h);
    }
    assert forall|i: int, j: int|
        0 <= i < n.entries.len() && 0 <= j < n.entries.len() && i != j implies !ranges_overlap(
        #[trigger] n.entries[i],
        #[trigger] n.entries[j],
    ) by {
        if i != k && j != k {
            assert(n.entries[i] == m.entries[i]);
            assert(n.entries[j] == m.entries[j]);
        } else {
            let o = if i == k {
                j
            } else {
                i
            };
            assert(n.entries[o] == m.entries[o]);
            if m.entries[o].chunk_settings is Some {
                assert(m.entries[o].chunk_settings is Some);
            }
        }
    }
}

/// Marking an entry deleted keeps its range, so ranges stay disjoint.
pub proof fn lemma_delete_keeps_ranges_disjoint(m: RefsModel, h: Seq<char>)
    requires
        m.wf(),
        m.ranges_disjoint(),
        m.contains(h),
    ensures
        m.upsert(h, EntryView { deleted: true, ..m.entry(h) }).ranges_disjoint(),
{
    let k = m.hashes.index_of(h);
    assert(m.hashes[k] == h);
    let n = m.upsert(h, EntryView { deleted: true, ..m.entry(h) });
    assert forall|i: int, j: int|
        0 <= i < n.entries.len() && 0 <= j < n.entries.len() && i != j implies !ranges_overlap(
        #[trigger] n.entries[i],
        #[trigger] n.entries[j],
    ) by {
        assert(!ranges_overlap(m.entries[i], m.entries[j]));
    }
}

/// A put moves ranges only inside reclaimed holes, so a bound on where the
/// ranges end still holds after it.
pub proof fn lemma_put_keeps_end_before(
    m: RefsModel,
    h: Seq<char>,
    parent: Seq<char>,
    len: u64,
    c: u64,
    end: u64,
)
    requires
        m.wf(),
        m.ranges_end_before(c, end),
    ensures
        m.after_put(h, parent, len).ranges_end_before(c, end),
        m.after_put(h, parent, len).wf(),
{
    lemma_best_fit_min(m, m.entries.len() as int, len as nat);
    lemma_upsert_entry(m, h, parent, len);
    let e = m.placed_entry(parent, len);
    let after = m.after_put(h, parent, len);
    let base = match m.best_fit(len as nat) {
        Some(d) => m.reclaimed(d),
        None => m,
    };
    let k = if m.contains(h) {
        m.hashes.index_of(h)
    } else {
        m.entries.len() as int
    };
    if m.contains(h) {
        assert(m.hashes[k] == h);
    }
    assert(after == base.upsert(h, e));
    assert forall|i: int|
        0 <= i < after.entries.len() && #[trigger] after.entries[i].chunk_settings is Some implies {
        let s = after.entries[i].chunk_settings->0;
        s.chunk_index <= c && (s.chunk_index == c ==> s.offset + after.entries[i].length <= end)
    } by {
        if i == k {
            let d = m.best_fit(len as nat)->0;
            assert(m.entries[d].chunk_settings is Some);
        } else {
            assert(m.entries[i].chunk_settings is Some);
        }
    }
}

/// The hole that a put picks is one that takes the message.
pub proof fn lemma_best_fit_fits(m: RefsModel, len: nat)
    ensures
        m.best_fit(len) matches Some(d) ==> m.fits(d, len),
{
    lemma_best_fit_min(m, m.entries.len() as int, len);
}

} // verus!
