//! The index of one directory tree, and the comparison of two indexes.
use std::collections::HashMap;

use vstd::prelude::*;
use vstd::string::StrSliceExecFns;

use crate::chunk::{chunk_of, create_chunk, segs, SIGNIFICANT_CHUNKS};
use crate::error::{ChunkError, DiffError};

verus! {

/// One indexed file.
#[derive(Debug, Clone)]
pub struct Entry {
    /// The path of the file as it was observed.
    pub relative_path: String,
    /// The chunk key, safe for comparison against another index.
    pub chunk: Vec<String>,
    /// The file's size in bytes: cheaper than a checksum, as it needs no read
    /// of the file.
    pub size: u64,
}

/// What an entry stands for.
pub struct EntryView {
    pub relative_path: Seq<char>,
    pub chunk: Seq<Seq<char>>,
    pub size: u64,
}

impl View for Entry {
    type V = EntryView;

    open spec fn view(&self) -> EntryView {
        EntryView { relative_path: self.relative_path@, chunk: segs(self.chunk@), size: self.size }
    }
}

/// What each entry of a sequence stands for.
pub open spec fn entries_view(v: Seq<Entry>) -> Seq<EntryView> {
    v.map_values(|e: Entry| e@)
}

/// Some entry of `es` has the chunk key `k`.
pub open spec fn has_chunk(es: Seq<EntryView>, k: Seq<Seq<char>>) -> bool {
    exists|i: int| 0 <= i < es.len() && es[i].chunk == k
}

/// No two entries of `es` share a chunk key.
pub open spec fn unique_chunks(es: Seq<EntryView>) -> bool {
    forall|i: int, j: int|
        0 <= i < es.len() && 0 <= j < es.len() && i != j ==> es[i].chunk != es[j].chunk
}

/// `e` has no counterpart by chunk key in `cur`.
pub open spec fn is_missing(cur: Seq<EntryView>, e: EntryView) -> bool {
    !has_chunk(cur, e.chunk)
}

/// `cur` holds an entry with `e`'s chunk key and another size.
pub open spec fn is_mismatched(cur: Seq<EntryView>, e: EntryView) -> bool {
    exists|i: int| 0 <= i < cur.len() && cur[i].chunk == e.chunk && cur[i].size != e.size
}

/// The entries of `reference` that `cur` lacks, in `reference`'s order.
pub open spec fn missing_of(cur: Seq<EntryView>, reference: Seq<EntryView>) -> Seq<EntryView> {
    reference.filter(|e: EntryView| is_missing(cur, e))
}

/// The entries of `reference` whose counterpart in `cur` differs in size, in
/// `reference`'s order.
pub open spec fn mismatched_of(cur: Seq<EntryView>, reference: Seq<EntryView>) -> Seq<EntryView> {
    reference.filter(|e: EntryView| is_mismatched(cur, e))
}

impl Entry {
    /// The entry for the file at `path` of the given size, keyed at `depth`.
    pub fn from_path(path: &str, size: u64, depth: usize) -> (r: Result<Entry, ChunkError>)
        ensures
            match chunk_of(path@, depth as nat) {
                Ok(k) => r is Ok && r->Ok_0@ == (EntryView { relative_path: path@, chunk: k, size }),
                Err(e) => r == Err::<Entry, ChunkError>(e),
            },
    {
        match create_chunk(path, depth) {
            Ok(chunk) => Ok(Entry { relative_path: path.to_string(), chunk, size }),
            Err(e) => Err(e),
        }
    }

    /// A copy of this entry.
    pub fn copy(&self) -> (r: Entry)
        ensures
            r@ == self@,
            r.relative_path == self.relative_path,
    {
        let mut chunk: Vec<String> = Vec::new();
        for i in 0..self.chunk.len()
            invariant
                chunk@.len() == i,
                forall|j: int| 0 <= j < i ==> chunk@[j]@ == self.chunk@[j]@,
        {
            chunk.push(self.chunk[i].clone());
        }
        assert(segs(chunk@) =~= segs(self.chunk@));
        Entry { relative_path: self.relative_path.clone(), chunk, size: self.size }
    }
}

/// Whether two chunk keys are equal.
fn same_chunk(a: &Vec<String>, b: &Vec<String>) -> (r: bool)
    ensures
        r == (segs(a@) == segs(b@)),
{
    if a.len() != b.len() {
        assert(segs(a@).len() != segs(b@).len());
        return false;
    }
    for i in 0..a.len()
        invariant
            a.len() == b.len(),
            forall|j: int| 0 <= j < i ==> a@[j]@ == b@[j]@,
    {
        if a[i] != b[i] {
            assert(segs(a@)[i as int] != segs(b@)[i as int]);
            return false;
        }
    }
    assert(segs(a@) =~= segs(b@));
    true
}

/// What an index stands for.
pub struct DbView {
    pub depth: nat,
    pub entries: Seq<EntryView>,
}

impl DbView {
    /// No two entries share a chunk key.
    pub open spec fn wf(self) -> bool {
        unique_chunks(self.entries)
    }
}

/// A snapshot of one directory tree: its entries, keyed by chunk, and the
/// depth their chunk keys were derived at.
#[derive(Debug)]
pub struct Db {
    significant_chunks: usize,
    entries: Vec<Entry>,
    /// The positions of the entries, by the hash of their chunk key.
    index: HashMap<u64, Vec<usize>>,
}

impl View for Db {
    type V = DbView;

    closed spec fn view(&self) -> DbView {
        DbView { depth: self.significant_chunks as nat, entries: entries_view(self.entries@) }
    }
}

/// The index that a depth and a sequence of entries make, if their chunk
/// keys are distinct.
pub open spec fn rebuild(depth: nat, es: Seq<EntryView>) -> Option<DbView> {
    if unique_chunks(es) {
        Some(DbView { depth, entries: es })
    } else {
        None
    }
}

/// The comparison of two indexes.
#[derive(Debug)]
pub struct DbDiffs {
    missing: Vec<Entry>,
    mismatched_size: Vec<Entry>,
}

/// What a comparison stands for.
pub struct DbDiffsView {
    pub missing: Seq<EntryView>,
    pub mismatched_size: Seq<EntryView>,
}

impl View for DbDiffs {
    type V = DbDiffsView;

    closed spec fn view(&self) -> DbDiffsView {
        DbDiffsView {
            missing: entries_view(self.missing@),
            mismatched_size: entries_view(self.mismatched_size@),
        }
    }
}

impl DbDiffs {
    /// Whether any file went missing or changed size.
    pub fn out_of_sync(&self) -> (r: bool)
        ensures
            r == (self@.missing.len() > 0 || self@.mismatched_size.len() > 0),
    {
        self.missing.len() > 0 || self.mismatched_size.len() > 0
    }

    /// The reference entries with no counterpart in the current index.
    pub fn missing(&self) -> (r: &[Entry])
        ensures
            entries_view(r@) == self@.missing,
    {
        self.missing.as_slice()
    }

    /// The reference entries whose counterpart differs in size.
    pub fn mismatched_size(&self) -> (r: &[Entry])
        ensures
            entries_view(r@) == self@.mismatched_size,
    {
        self.mismatched_size.as_slice()
    }
}

/// The modulus that keeps the chunk key hash small.
pub const HASH_MODULUS: u64 = 1_000_000_007;

/// Added to a key's hash after each segment, so that segments stay apart.
pub const SEGMENT_MARK: u64 = 47;

/// One step of the chunk key hash.
pub open spec fn hash_step(h: u64, x: u64) -> u64 {
    ((h % HASH_MODULUS) * 31 + x) as u64
}

/// The hash of the characters of `s`, starting from `h`.
pub open spec fn chars_hash(h: u64, s: Seq<char>) -> u64
    decreases s.len(),
{
    if s.len() == 0 {
        h
    } else {
        hash_step(chars_hash(h, s.drop_last()), s.last() as u32 as u64)
    }
}

/// The hash of a chunk key, by which an index finds its entries.
pub open spec fn key_hash(k: Seq<Seq<char>>) -> u64
    decreases k.len(),
{
    if k.len() == 0 {
        0
    } else {
        hash_step(chars_hash(key_hash(k.drop_last()), k.last()), SEGMENT_MARK)
    }
}

fn step(h: u64, x: u64) -> (r: u64)
    requires
        x <= u32::MAX,
    ensures
        r == hash_step(h, x),
{
    let m = h % HASH_MODULUS;
    assert(m * 31 + x <= u64::MAX) by (nonlinear_arith)
        requires
            m < HASH_MODULUS,
            x <= u32::MAX,
    ;
    m * 31 + x
}

/// The hash of a chunk key.
fn hash_chunk(chunk: &Vec<String>) -> (r: u64)
    ensures
        r == key_hash(segs(chunk@)),
{
    let ghost k = segs(chunk@);
    let mut h: u64 = 0;
    for i in 0..chunk.len()
        invariant
            k == segs(chunk@),
            h == key_hash(k.take(i as int)),
    {
        let s = chunk[i].as_str();
        let n = s.unicode_len();
        let mut g = h;
        for j in 0..n
            invariant
                n == s@.len(),
                g == chars_hash(h, s@.take(j as int)),
        {
            let c = s.get_char(j);
            assert(s@.take(j + 1).drop_last() =~= s@.take(j as int));
            g = step(g, c as u32 as u64);
        }
        assert(s@.take(n as int) =~= s@);
        assert(k.take(i + 1).drop_last() =~= k.take(i as int));
        h = step(g, SEGMENT_MARK);
    }
    assert(k.take(chunk.len() as int) =~= k);
    h
}

impl Db {
    /// The hash index finds every entry, and points only at entries whose
    /// key has the hash it is filed under.
    pub closed spec fn indexed(&self) -> bool {
        &&& forall|i: int|
            0 <= i < self.entries@.len() ==> {
                let h = key_hash(#[trigger] self.entries@[i]@.chunk);
                self.index@.contains_key(h) && self.index@[h]@.contains(i as usize)
            }
        &&& forall|h: u64, j: int|
            self.index@.contains_key(h) && 0 <= j < self.index@[h]@.len() ==> {
                let i = #[trigger] self.index@[h]@[j];
                (i as int) < self.entries@.len() && key_hash(self.entries@[i as int]@.chunk) == h
            }
    }

    /// No two entries share a chunk key, and the lookup index is in order.
    pub open spec fn wf(&self) -> bool {
        self@.wf() && self.indexed()
    }
}

impl Default for Db {
    fn default() -> (r: Db)
        ensures
            r@.depth == SIGNIFICANT_CHUNKS,
            r@.entries.len() == 0,
            r.wf(),
    {
        Db::new(SIGNIFICANT_CHUNKS)
    }
}

impl Db {
    /// An empty index whose chunk keys are derived at `depth`.
    pub fn new(depth: usize) -> (r: Db)
        ensures
            r@.depth == depth,
            r@.entries.len() == 0,
            r.wf(),
    {
        let db = Db { significant_chunks: depth, entries: Vec::new(), index: HashMap::new() };
        assert(entries_view(db.entries@) =~= Seq::<EntryView>::empty());
        db
    }

    /// The depth that this index's chunk keys were derived at.
    pub fn depth(&self) -> (r: usize)
        ensures
            r == self@.depth,
    {
        self.significant_chunks
    }

    /// The entries, in the order they were inserted.
    pub fn entries(&self) -> (r: &[Entry])
        ensures
            entries_view(r@) == self@.entries,
    {
        self.entries.as_slice()
    }

    /// The position of the entry with chunk key `chunk`, if there is one.
    fn find(&self, chunk: &Vec<String>) -> (r: Option<usize>)
        requires
            self.wf(),
        ensures
            match r {
                Some(i) => i < self@.entries.len() && self@.entries[i as int].chunk == segs(chunk@),
                None => !has_chunk(self@.entries, segs(chunk@)),
            },
    {
        broadcast use vstd::std_specs::hash::group_hash_axioms;

        let h = hash_chunk(chunk);
        let count = self.entries.len();
        match self.index.get(&h) {
            None => {
                assert forall|i: int| 0 <= i < self@.entries.len() implies self@.entries[i].chunk
                    != segs(chunk@) by {
                    assert(self.entries@[i]@ == self@.entries[i]);
                }
                None
            },
            Some(bucket) => {
                let mut t: usize = 0;
                while t < bucket.len()
                    invariant
                        t <= bucket@.len(),
                        count == self.entries@.len(),
                        self.wf(),
                        self.index@.contains_key(h),
                        bucket@ == self.index@[h]@,
                        forall|u: int|
                            0 <= u < t ==> self@.entries[#[trigger] bucket@[u] as int].chunk != segs(
                                chunk@,
                            ),
                    decreases bucket@.len() - t,
                {
                    let i = bucket[t];
                    assert(self.index@[h]@[t as int] == i);
                    assert(self.entries@[i as int]@ == self@.entries[i as int]);
                    if same_chunk(&self.entries[i].chunk, chunk) {
                        return Some(i);
                    }
                    t = t + 1;
                }
                assert forall|i: int| 0 <= i < self@.entries.len() implies self@.entries[i].chunk
                    != segs(chunk@) by {
                    assert(self.entries@[i]@ == self@.entries[i]);
                    if self@.entries[i].chunk == segs(chunk@) {
                        let hi = key_hash(self.entries@[i]@.chunk);
                        assert(hi == h);
                        assert(self.index@[h]@.contains(i as usize));
                        let u = choose|u: int| 0 <= u < bucket@.len() && bucket@[u] == i as usize;
                        assert(self@.entries[bucket@[u] as int].chunk != segs(chunk@));
                    }
                }
                None
            },
        }
    }

    /// Adds `entry` under its chunk key. An entry already under that key is
    /// kept, and `entry` is refused with `DuplicateChunk` naming its path.
    pub fn insert(&mut self, entry: Entry) -> (r: Result<(), ChunkError>)
        requires
            old(self).wf(),
        ensures
            final(self).wf(),
            has_chunk(old(self)@.entries, entry@.chunk) ==> r == Err::<(), ChunkError>(
                ChunkError::DuplicateChunk(entry.relative_path),
            ) && final(self)@ == old(self)@,
            !has_chunk(old(self)@.entries, entry@.chunk) ==> r is Ok && final(self)@ == (DbView {
                depth: old(self)@.depth,
                entries: old(self)@.entries.push(entry@),
            }),
    {
        match self.find(&entry.chunk) {
            Some(_) => Err(ChunkError::DuplicateChunk(entry.relative_path)),
            None => {
                broadcast use vstd::std_specs::hash::group_hash_axioms;

                let ghost before = self.entries@;
                let ghost old_index = self.index@;
                let h = hash_chunk(&entry.chunk);
                let n = self.entries.len();
                let mut bucket = match self.index.remove(&h) {
                    Some(b) => b,
                    None => Vec::new(),
                };
                let ghost old_bucket = bucket@;
                assert(old_index.contains_key(h) ==> old_bucket == old_index[h]@);
                assert(!old_index.contains_key(h) ==> old_bucket.len() == 0);
                bucket.push(n);
                let ghost nb = bucket;
                self.index.insert(h, bucket);
                self.entries.push(entry);
                assert(entries_view(self.entries@) =~= entries_view(before).push(entry@));
                assert(self.index@ =~= old_index.insert(h, nb));
                assert(nb@ == old_bucket.push(n));
                assert forall|i: int| 0 <= i < self.entries@.len() implies {
                    let hi = key_hash(#[trigger] self.entries@[i]@.chunk);
                    self.index@.contains_key(hi) && self.index@[hi]@.contains(i as usize)
                } by {
                    let hi = key_hash(self.entries@[i]@.chunk);
                    if i < n {
                        assert(self.entries@[i] == before[i]);
                        assert(old_index.contains_key(hi) && old_index[hi]@.contains(i as usize));
                        if hi == h {
                            let u = choose|u: int| 0 <= u < old_bucket.len() && old_bucket[u] == i as usize;
                            assert(self.index@[hi]@[u] == i as usize);
                        }
                    } else {
                        assert(self.index@[hi]@[old_bucket.len() as int] == n);
                    }
                }
                assert forall|g: u64, j: int|
                    self.index@.contains_key(g) && 0 <= j < self.index@[g]@.len() implies {
                    let i = #[trigger] self.index@[g]@[j];
                    (i as int) < self.entries@.len() && key_hash(self.entries@[i as int]@.chunk) == g
                } by {
                    if g == h {
                        if j < old_bucket.len() {
                            assert(self.index@[g]@[j] == old_index[g]@[j]);
                        }
                    } else {
                        assert(self.index@[g]@[j] == old_index[g]@[j]);
                    }
                    let i = self.index@[g]@[j];
                    if (i as int) < n {
                        assert(self.entries@[i as int] == before[i as int]);
                    }
                }
                Ok(())
            },
        }
    }

    /// The index of `depth` that holds `entries`, inserted in order; fails
    /// with `DuplicateChunk` on the first entry whose chunk key an earlier one
    /// has.
    pub fn from_parts(depth: usize, entries: Vec<Entry>) -> (r: Result<Db, ChunkError>)
        ensures
            match rebuild(depth as nat, entries_view(entries@)) {
                Some(v) => r is Ok && r->Ok_0@ == v,
                None => exists|k: int|
                    0 <= k < entries@.len() && unique_chunks(entries_view(entries@).take(k))
                        && has_chunk(entries_view(entries@).take(k), entries@[k]@.chunk) && r
                        == Err::<Db, ChunkError>(
                        ChunkError::DuplicateChunk(entries@[k].relative_path),
                    ),
            },
    {
        let mut db = Db::new(depth);
        let ghost all = entries_view(entries@);
        for k in 0..entries.len()
            invariant
                all == entries_view(entries@),
                db.wf(),
                db@.depth == depth,
                db@.entries == all.take(k as int),
        {
            let ghost before = db@;
            match db.insert(entries[k].copy()) {
                Ok(()) => {},
                Err(err) => {
                    proof {
                        let kk = k as int;
                        let i = choose|i: int|
                            0 <= i < before.entries.len() && before.entries[i].chunk == all[kk].chunk;
                        assert(all[i] == all.take(kk)[i]);
                        assert(!unique_chunks(all));
                        assert(has_chunk(all.take(kk), entries@[kk]@.chunk));
                    }
                    return Err(err);
                },
            }
            assert(all.take(k as int).push(all[k as int]) =~= all.take(k + 1));
        }
        assert(all.take(all.len() as int) =~= all);
        Ok(db)
    }

    /// Compares this (current) index against `other` (the reference): the
    /// reference entries that have no counterpart here by chunk key, and
    /// those whose counterpart differs in size. Entries found only here are
    /// not reported. Indexes of different depths cannot be compared.
    pub fn diffs_from(&self, other: &Self) -> (r: Result<DbDiffs, DiffError>)
        requires
            self.wf(),
        ensures
            self@.depth != other@.depth ==> r == Err::<DbDiffs, DiffError>(
                DiffError::MismatchedChunks,
            ),
            self@.depth == other@.depth ==> r is Ok && r->Ok_0@.missing == missing_of(
                self@.entries,
                other@.entries,
            ) && r->Ok_0@.mismatched_size == mismatched_of(self@.entries, other@.entries),
    {
        if self.significant_chunks != other.significant_chunks {
            return Err(DiffError::MismatchedChunks);
        }
        let ghost cur = self@.entries;
        let ghost refs = other@.entries;
        let mut missing: Vec<Entry> = Vec::new();
        let mut mismatched_size: Vec<Entry> = Vec::new();
        for i in 0..other.entries.len()
            invariant
                cur == self@.entries,
                self.wf(),
                refs == other@.entries,
                refs.len() == other.entries@.len(),
                entries_view(missing@) == missing_of(cur, refs.take(i as int)),
                entries_view(mismatched_size@) == mismatched_of(cur, refs.take(i as int)),
        {
            let entry = &other.entries[i];
            let ghost e = entry@;
            assert(refs.take(i + 1).drop_last() =~= refs.take(i as int));
            assert(refs.take(i + 1).last() == e);
            proof {
                reveal(Seq::filter);
            }
            let ghost m0 = missing@;
            let ghost s0 = mismatched_size@;
            match self.find(&entry.chunk) {
                Some(j) => {
                    assert(!is_missing(cur, e));
                    if self.entries[j].size != entry.size {
                        assert(is_mismatched(cur, e));
                        mismatched_size.push(entry.copy());
                        assert(entries_view(mismatched_size@) =~= entries_view(s0).push(e));
                    } else {
                        assert(!is_mismatched(cur, e)) by {
                            if is_mismatched(cur, e) {
                                let w = choose|w: int|
                                    0 <= w < cur.len() && cur[w].chunk == e.chunk && cur[w].size
                                        != e.size;
                                assert(w == j as int);
                            }
                        }
                    }
                },
                None => {
                    assert(!is_mismatched(cur, e));
                    missing.push(entry.copy());
                    assert(entries_view(missing@) =~= entries_view(m0).push(e));
                },
            }
        }
        assert(refs.take(refs.len() as int) =~= refs);
        Ok(DbDiffs { missing, mismatched_size })
    }
}

/// Once an entry is inserted under a chunk key, any other entry with that
/// key is refused: the index keeps the first and stays free of duplicates.
pub proof fn lemma_first_insert_wins(db: DbView, first: EntryView, second: EntryView)
    requires
        db.wf(),
        !has_chunk(db.entries, first.chunk),
        second.chunk == first.chunk,
    ensures
        unique_chunks(db.entries.push(first)),
        has_chunk(db.entries.push(first), second.chunk),
{
    let es = db.entries.push(first);
    assert(es[db.entries.len() as int] == first);
    assert forall|i: int, j: int|
        0 <= i < es.len() && 0 <= j < es.len() && i != j implies es[i].chunk != es[j].chunk by {
        if i < db.entries.len() && j < db.entries.len() {
            assert(es[i] == db.entries[i] && es[j] == db.entries[j]);
        } else if i < db.entries.len() {
            assert(es[i] == db.entries[i]);
        } else {
            assert(es[j] == db.entries[j]);
        }
    }
}

/// Taking an index apart into its depth and entries and building it again
/// from them gives back the same index.
pub proof fn lemma_parts_round_trip(db: DbView)
    requires
        db.wf(),
    ensures
        rebuild(db.depth, db.entries) == Some(db),
{
}

/// A file found only in the current index, with no counterpart by chunk key
/// in the reference, is reported neither as missing nor as changed in size.
pub proof fn lemma_new_files_unreported(cur: Seq<EntryView>, reference: Seq<EntryView>, e: EntryView)
    requires
        cur.contains(e),
        !has_chunk(reference, e.chunk),
    ensures
        !missing_of(cur, reference).contains(e),
        !mismatched_of(cur, reference).contains(e),
{
    if missing_of(cur, reference).contains(e) {
        reference.lemma_filter_contains_rev(|x: EntryView| is_missing(cur, x), e);
    }
    if mismatched_of(cur, reference).contains(e) {
        reference.lemma_filter_contains_rev(|x: EntryView| is_mismatched(cur, x), e);
    }
}

} // verus!
