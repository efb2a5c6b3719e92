//! The server's chunk store, delete epochs and root registry.
//!
//! The store models the server's three tables. Chunk rows are unique per
//! (bucket, hash); small bodies are stored inline, large ones keep only
//! their metadata here and live on disk. Every bulk delete stamps the
//! bucket's delete epoch, which clients read through the status endpoint to
//! invalidate their existence caches.

use vstd::prelude::*;

use crate::ident::str_eq;
use crate::numfmt::{dec_of, dec_of_int, i64_to_string, u64_to_string};
use crate::serialize::{join_records, views_of};

verus! {

/// A chunk PUT body larger than this is rejected.
pub const CHUNK_BODY_LIMIT: usize = 1024 * 1024 * 1024;

/// A bulk delete body larger than this is rejected.
pub const BULK_DELETE_LIMIT: usize = 1024 * 1024 * 256;

/// A root PUT body larger than this is rejected.
pub const ROOT_BODY_LIMIT: usize = 1024 * 1024 * 10;

/// One row of the chunks table.
pub struct ChunkRecord {
    pub bucket: String,
    pub hash: String,
    /// The length of the stored body.
    pub size: u64,
    pub time: i64,
    /// The body itself for inline rows; None for rows whose body lives on
    /// disk.
    pub content: Option<Vec<u8>>,
}

/// One row of the deletes table: a bucket's most recent bulk-delete time.
pub struct DeleteRow {
    pub bucket: String,
    pub time: i64,
}

/// One row of the roots table: a snapshot pointer.
pub struct RootRecord {
    pub id: i64,
    pub bucket: String,
    pub host: String,
    pub time: i64,
    pub hash: String,
}

/// A chunk row belongs to the given bucket and hash.
pub open spec fn chunk_matches(c: ChunkRecord, bucket: Seq<char>, hash: Seq<char>) -> bool {
    c.bucket@ == bucket && c.hash@ == hash
}

/// Some row holds the given (bucket, hash).
pub open spec fn has_chunk(s: Seq<ChunkRecord>, bucket: Seq<char>, hash: Seq<char>) -> bool {
    exists|i: int| 0 <= i < s.len() && chunk_matches(#[trigger] s[i], bucket, hash)
}

/// Some delete row belongs to the bucket.
pub open spec fn has_delete_row(s: Seq<DeleteRow>, bucket: Seq<char>) -> bool {
    exists|i: int| 0 <= i < s.len() && (#[trigger] s[i]).bucket@ == bucket
}

/// The bucket's delete epoch: the time of its delete row, or 0 without one.
pub open spec fn epoch_of(s: Seq<DeleteRow>, bucket: Seq<char>) -> int
    decreases s.len(),
{
    if s.len() == 0 {
        0
    } else if s[0].bucket@ == bucket {
        s[0].time as int
    } else {
        epoch_of(s.drop_first(), bucket)
    }
}

/// The server store: the three tables and the root id counter.
pub struct Store {
    pub chunks: Vec<ChunkRecord>,
    pub deletes: Vec<DeleteRow>,
    pub roots: Vec<RootRecord>,
    pub next_root_id: i64,
}

/// The store's invariant: chunk rows unique per (bucket, hash), one delete
/// row per bucket, root ids unique and below the counter, and inline rows
/// carrying exactly as many bytes as their declared size.
pub open spec fn store_wf(s: Store) -> bool {
    &&& forall|i: int, j: int|
        0 <= i < j < s.chunks@.len() ==> !(#[trigger] s.chunks@[i].bucket@ == #[trigger] s.chunks@[j].bucket@
            && s.chunks@[i].hash@ == s.chunks@[j].hash@)
    &&& forall|i: int, j: int|
        0 <= i < j < s.deletes@.len() ==> (#[trigger] s.deletes@[i].bucket@) != (
        #[trigger] s.deletes@[j].bucket@)
    &&& forall|i: int, j: int|
        0 <= i < j < s.roots@.len() ==> (#[trigger] s.roots@[i].id) != (#[trigger] s.roots@[j].id)
    &&& forall|i: int| 0 <= i < s.roots@.len() ==> (#[trigger] s.roots@[i].id) < s.next_root_id
    &&& forall|i: int|
        0 <= i < s.chunks@.len() ==> ((#[trigger] s.chunks@[i].content) matches Some(c) ==> c@.len()
            == s.chunks@[i].size)
}

/// What a chunk PUT did.
#[derive(Clone, Copy, PartialEq, Eq, Structural, Debug)]
pub enum PutOutcome {
    /// The row was inserted.
    Stored,
    /// The (bucket, hash) already existed; nothing changed.
    Conflict,
    /// The body was over the limit; nothing changed.
    TooLarge,
}

impl Store {
    /// An empty store.
    pub fn new() -> (r: Store)
        ensures
            store_wf(r),
            r.chunks@.len() == 0,
            r.deletes@.len() == 0,
            r.roots@.len() == 0,
            r.next_root_id == 1,
    {
        Store { chunks: Vec::new(), deletes: Vec::new(), roots: Vec::new(), next_root_id: 1 }
    }

    /// Find the row of a (bucket, hash), if any.
    pub fn lookup_chunk(&self, bucket: &str, hash: &str) -> (r: Option<usize>)
        ensures
            r matches Some(i) ==> i < self.chunks@.len() && chunk_matches(
                self.chunks@[i as int],
                bucket@,
                hash@,
            ),
            r is None <==> !has_chunk(self.chunks@, bucket@, hash@),
    {
        let mut i: usize = 0;
        while i < self.chunks.len()
            invariant
                0 <= i <= self.chunks@.len(),
                forall|j: int|
                    0 <= j < i ==> !chunk_matches(#[trigger] self.chunks@[j], bucket@, hash@),
            decreases self.chunks@.len() - i,
        {
            let c = &self.chunks[i];
            if str_eq(c.bucket.as_str(), bucket) && str_eq(c.hash.as_str(), hash) {
                return Some(i);
            }
            i += 1;
        }
        None
    }

    /// Install a chunk: reject a duplicate (bucket, hash) with a conflict,
    /// reject an oversized body, and otherwise append a row whose body is
    /// inline exactly when it is smaller than `small_size`.
    pub fn put_chunk(
        &mut self,
        bucket: &str,
        hash: &str,
        body: Vec<u8>,
        small_size: usize,
        now: i64,
    ) -> (r: PutOutcome)
        requires
            store_wf(*old(self)),
        ensures
            store_wf(*final(self)),
            r == PutOutcome::Conflict <==> has_chunk(old(self).chunks@, bucket@, hash@),
            r == PutOutcome::TooLarge <==> !has_chunk(old(self).chunks@, bucket@, hash@)
                && body@.len() > CHUNK_BODY_LIMIT,
            r != PutOutcome::Stored ==> *final(self) == *old(self),
            r == PutOutcome::Stored ==> {
                &&& final(self).chunks@.len() == old(self).chunks@.len() + 1
                &&& final(self).chunks@.drop_last() == old(self).chunks@
                &&& chunk_matches(final(self).chunks@.last(), bucket@, hash@)
                &&& final(self).chunks@.last().size == body@.len()
                &&& final(self).chunks@.last().time == now
                &&& (final(self).chunks@.last().content is Some <==> body@.len() < small_size)
                &&& (final(self).chunks@.last().content matches Some(c) ==> c@ == body@)
                &&& final(self).deletes@ == old(self).deletes@
                &&& final(self).roots@ == old(self).roots@
                &&& final(self).next_root_id == old(self).next_root_id
            },
    {
        if self.lookup_chunk(bucket, hash).is_some() {
            return PutOutcome::Conflict;
        }
        if body.len() > CHUNK_BODY_LIMIT {
            return PutOutcome::TooLarge;
        }
        let size = body.len() as u64;
        let content = if body.len() < small_size {
            Some(body)
        } else {
            None
        };
        let record = ChunkRecord {
            bucket: bucket.to_owned(),
            hash: hash.to_owned(),
            size,
            time: now,
            content,
        };
        let ghost pre = self.chunks@;
        self.chunks.push(record);
        proof {
            assert(self.chunks@.drop_last() =~= pre);
        }
        PutOutcome::Stored
    }

    /// The delete epoch the status endpoint reports: the bucket's delete
    /// row's time, or 0 if the bucket was never bulk-deleted.
    pub fn get_status(&self, bucket: &str) -> (r: i64)
        ensures
            r == epoch_of(self.deletes@, bucket@),
    {
        let mut i: usize = 0;
        proof {
            assert(self.deletes@.skip(0) =~= self.deletes@);
        }
        while i < self.deletes.len()
            invariant
                0 <= i <= self.deletes@.len(),
                forall|j: int| 0 <= j < i ==> (#[trigger] self.deletes@[j].bucket@) != bucket@,
                epoch_of(self.deletes@, bucket@) == epoch_of(
                    self.deletes@.skip(i as int),
                    bucket@,
                ),
            decreases self.deletes@.len() - i,
        {
            let row = &self.deletes[i];
            if str_eq(row.bucket.as_str(), bucket) {
                proof {
                    assert(self.deletes@.skip(i as int)[0] == self.deletes@[i as int]);
                }
                return row.time;
            }
            proof {
                assert(self.deletes@.skip(i as int).drop_first() =~= self.deletes@.skip(i + 1));
                assert(self.deletes@.skip(i as int)[0] == self.deletes@[i as int]);
            }
            i += 1;
        }
        proof {
            assert(self.deletes@.skip(self.deletes@.len() as int).len() == 0);
        }
        0
    }

    /// The status body: the delete epoch as decimal text.
    pub fn status_text(&self, bucket: &str) -> (r: String)
        ensures
            r@ == dec_of_int(epoch_of(self.deletes@, bucket@)),
    {
        i64_to_string(self.get_status(bucket))
    }

    /// Stamp the bucket's delete epoch with the current time, replacing any
    /// earlier row. Epochs of other buckets and the other tables stay.
    fn bump_epoch(&mut self, bucket: &str, now: i64)
        requires
            store_wf(*old(self)),
        ensures
            store_wf(*final(self)),
            epoch_of(final(self).deletes@, bucket@) == now,
            forall|b: Seq<char>|
                b != bucket@ ==> #[trigger] epoch_of(final(self).deletes@, b) == epoch_of(
                    old(self).deletes@,
                    b,
                ),
            final(self).chunks@ == old(self).chunks@,
            final(self).roots@ == old(self).roots@,
            final(self).next_root_id == old(self).next_root_id,
    {
        let mut i: usize = 0;
        let mut found: Option<usize> = None;
        while i < self.deletes.len()
            invariant
                0 <= i <= self.deletes@.len(),
                found matches Some(k) ==> k < i && self.deletes@[k as int].bucket@ == bucket@,
                found is None ==> forall|j: int|
                    0 <= j < i ==> (#[trigger] self.deletes@[j].bucket@) != bucket@,
            decreases self.deletes@.len() - i,
        {
            if found.is_none() && str_eq(self.deletes[i].bucket.as_str(), bucket) {
                found = Some(i);
            }
            i += 1;
        }
        let ghost pre = self.deletes@;
        match found {
            Some(k) => {
                self.deletes.remove(k);
                proof {
                    lemma_epoch_remove(pre, k as int, bucket@);
                }
            },
            None => {},
        }
        proof {
            assert(forall|j: int|
                0 <= j < self.deletes@.len() ==> (#[trigger] self.deletes@[j].bucket@) != bucket@);
            lemma_epoch_not_present(self.deletes@, bucket@);
        }
        let ghost mid = self.deletes@;
        let row = DeleteRow { bucket: bucket.to_owned(), time: now };
        self.deletes.push(row);
        proof {
            assert forall|b: Seq<char>| true implies #[trigger] epoch_of(self.deletes@, b)
                == if has_delete_row(mid, b) {
                epoch_of(mid, b)
            } else if bucket@ == b {
                now as int
            } else {
                0
            } by {
                lemma_epoch_push(mid, self.deletes@.last(), b);
            }
            assert(!has_delete_row(mid, bucket@));
            assert(epoch_of(self.deletes@, bucket@) == now);
            assert forall|b: Seq<char>| b != bucket@ implies #[trigger] epoch_of(
                self.deletes@,
                b,
            ) == epoch_of(pre, b) by {
                match found {
                    Some(k) => {
                        lemma_epoch_remove(pre, k as int, b);
                        if !has_delete_row(mid, b) {
                            assert forall|j: int| 0 <= j < pre.len() implies (
                            #[trigger] pre[j].bucket@) != b by {
                                if j < k {
                                    assert(mid[j] == pre[j]);
                                } else if j > k {
                                    assert(mid[j - 1] == pre[j]);
                                }
                            }
                            lemma_epoch_not_present(pre, b);
                            lemma_epoch_not_present_general(mid, b);
                        }
                    },
                    None => {
                        if !has_delete_row(mid, b) {
                            lemma_epoch_not_present_general(mid, b);
                            lemma_epoch_not_present_general(pre, b);
                        }
                    },
                }
            }
        }
    }
}

/// The chunk rows that survive a bulk delete of the given hashes in the
/// given bucket, in their original order.
pub open spec fn keep_chunks(
    s: Seq<ChunkRecord>,
    bucket: Seq<char>,
    hashes: Seq<Seq<char>>,
) -> Seq<ChunkRecord>
    decreases s.len(),
{
    if s.len() == 0 {
        s
    } else {
        let rest = keep_chunks(s.drop_last(), bucket, hashes);
        if s.last().bucket@ == bucket && hashes.contains(s.last().hash@) {
            rest
        } else {
            rest.push(s.last())
        }
    }
}

/// Every surviving row is one of the original rows.
proof fn lemma_keep_chunks_membership(s: Seq<ChunkRecord>, bucket: Seq<char>, hashes: Seq<Seq<char>>)
    ensures
        keep_chunks(s, bucket, hashes).len() <= s.len(),
        forall|i: int|
            0 <= i < keep_chunks(s, bucket, hashes).len() ==> exists|j: int|
                0 <= j < s.len() && #[trigger] keep_chunks(s, bucket, hashes)[i] == s[j],
    decreases s.len(),
{
    if s.len() > 0 {
        lemma_keep_chunks_membership(s.drop_last(), bucket, hashes);
        let kept = keep_chunks(s, bucket, hashes);
        let rest = keep_chunks(s.drop_last(), bucket, hashes);
        assert forall|i: int| 0 <= i < kept.len() implies exists|j: int|
            0 <= j < s.len() && #[trigger] kept[i] == s[j] by {
            if i < rest.len() {
                let j = choose|j: int| 0 <= j < s.drop_last().len() && #[trigger] rest[i] == s.drop_last()[j];
                assert(kept[i] == s[j]);
            } else {
                assert(kept[i] == s[s.len() - 1]);
            }
        }
    }
}

/// A bulk delete keeps the chunk table duplicate-free.
proof fn lemma_keep_chunks_wf(s: Seq<ChunkRecord>, bucket: Seq<char>, hashes: Seq<Seq<char>>)
    requires
        forall|i: int, j: int|
            0 <= i < j < s.len() ==> !(#[trigger] s[i].bucket@ == #[trigger] s[j].bucket@
                && s[i].hash@ == s[j].hash@),
    ensures
        forall|i: int, j: int|
            0 <= i < j < keep_chunks(s, bucket, hashes).len() ==> !(#[trigger] keep_chunks(
                s,
                bucket,
                hashes,
            )[i].bucket@ == #[trigger] keep_chunks(s, bucket, hashes)[j].bucket@ && keep_chunks(
                s,
                bucket,
                hashes,
            )[i].hash@ == keep_chunks(s, bucket, hashes)[j].hash@),
    decreases s.len(),
{
    if s.len() > 0 {
        lemma_keep_chunks_wf(s.drop_last(), bucket, hashes);
        lemma_keep_chunks_membership(s.drop_last(), bucket, hashes);
        let kept = keep_chunks(s, bucket, hashes);
        let rest = keep_chunks(s.drop_last(), bucket, hashes);
        assert forall|i: int, j: int| 0 <= i < j < kept.len() implies !(#[trigger] kept[i].bucket@
            == #[trigger] kept[j].bucket@ && kept[i].hash@ == kept[j].hash@) by {
            if j < rest.len() {
            } else if j == rest.len() && kept.len() > rest.len() {
                let x = s[s.len() - 1];
                assert(kept[j] == x);
                let jj = choose|jj: int|
                    0 <= jj < s.drop_last().len() && #[trigger] rest[i] == s.drop_last()[jj];
                assert(s[jj] == rest[i]);
                assert(!(s[jj].bucket@ == x.bucket@ && s[jj].hash@ == x.hash@));
            }
        }
    }
}

impl Store {
    /// Whether the list of hashes holds this string.
    fn contains_hash(hashes: &Vec<String>, x: &str) -> (r: bool)
        ensures
            r == views_of(hashes@).contains(x@),
    {
        let mut i: usize = 0;
        while i < hashes.len()
            invariant
                0 <= i <= hashes@.len(),
                forall|j: int| 0 <= j < i ==> (#[trigger] hashes@[j]@) != x@,
            decreases hashes@.len() - i,
        {
            if str_eq(hashes[i].as_str(), x) {
                proof {
                    assert(views_of(hashes@)[i as int] == x@);
                }
                return true;
            }
            i += 1;
        }
        proof {
            assert forall|j: int| 0 <= j < views_of(hashes@).len() implies (#[trigger] views_of(
                hashes@,
            )[j]) != x@ by {
                assert(views_of(hashes@)[j] == hashes@[j]@);
            }
        }
        false
    }

    /// Bulk delete: remove every row of the bucket whose hash is listed,
    /// then stamp the bucket's delete epoch. The result reports how many
    /// rows went and whether that covered every requested hash. An empty
    /// request does nothing, not even stamping the epoch.
    pub fn delete_chunks(&mut self, bucket: &str, hashes: &Vec<String>, now: i64) -> (r: (
        usize,
        bool,
    ))
        requires
            store_wf(*old(self)),
        ensures
            store_wf(*final(self)),
            hashes@.len() == 0 ==> *final(self) == *old(self) && r.0 == 0 && r.1,
            hashes@.len() > 0 ==> {
                &&& final(self).chunks@ == keep_chunks(
                    old(self).chunks@,
                    bucket@,
                    views_of(hashes@),
                )
                &&& epoch_of(final(self).deletes@, bucket@) == now
                &&& forall|b: Seq<char>|
                    b != bucket@ ==> #[trigger] epoch_of(final(self).deletes@, b) == epoch_of(
                        old(self).deletes@,
                        b,
                    )
                &&& final(self).roots@ == old(self).roots@
                &&& final(self).next_root_id == old(self).next_root_id
                &&& r.0 == old(self).chunks@.len() - final(self).chunks@.len()
                &&& r.1 == (r.0 == hashes@.len())
            },
    {
        if hashes.len() == 0 {
            return (0, true);
        }
        let ghost orig = self.chunks@;
        let total = self.chunks.len();
        let mut kept: Vec<ChunkRecord> = Vec::new();
        let mut k: usize = 0;
        proof {
            assert(orig.take(0) =~= Seq::<ChunkRecord>::empty());
        }
        while self.chunks.len() > 0
            invariant
                store_wf(*old(self)),
                k + self.chunks@.len() == total,
                total == orig.len(),
                self.chunks@ =~= orig.skip(k as int),
                kept@ == keep_chunks(orig.take(k as int), bucket@, views_of(hashes@)),
                kept@.len() <= k,
                self.deletes@ == old(self).deletes@,
                self.roots@ == old(self).roots@,
                self.next_root_id == old(self).next_root_id,
            decreases self.chunks@.len(),
        {
            let c = self.chunks.remove(0);
            proof {
                assert(orig.skip(k as int)[0] == orig[k as int]);
                assert(orig.skip(k as int).remove(0) =~= orig.skip(k + 1));
                assert(orig.take(k + 1).drop_last() =~= orig.take(k as int));
                assert(orig.take(k + 1).last() == orig[k as int]);
            }
            let ghost pre_kept = kept@;
            if str_eq(c.bucket.as_str(), bucket) && Store::contains_hash(hashes, c.hash.as_str()) {
            } else {
                kept.push(c);
                proof {
                    assert(kept@ =~= pre_kept.push(orig[k as int]));
                }
            }
            k += 1;
        }
        proof {
            assert(orig.take(total as int) =~= orig);
        }
        let removed = total - kept.len();
        self.chunks = kept;
        proof {
            lemma_keep_chunks_wf(orig, bucket@, views_of(hashes@));
            lemma_keep_chunks_membership(orig, bucket@, views_of(hashes@));
            assert forall|i: int|
                0 <= i < self.chunks@.len() implies ((#[trigger] self.chunks@[i].content) matches
                Some(cc) ==> cc@.len() == self.chunks@[i].size) by {
                let j = choose|j: int| 0 <= j < orig.len() && #[trigger] self.chunks@[i] == orig[j];
            }
        }
        self.bump_epoch(bucket, now);
        (removed, removed == hashes.len())
    }

    /// Register a snapshot root: the server assigns the id and timestamp.
    pub fn put_root(&mut self, bucket: &str, host: &str, hash: &str, now: i64)
        requires
            store_wf(*old(self)),
            old(self).next_root_id < i64::MAX,
        ensures
            store_wf(*final(self)),
            final(self).roots@.len() == old(self).roots@.len() + 1,
            final(self).roots@.drop_last() == old(self).roots@,
            final(self).roots@.last().id == old(self).next_root_id,
            final(self).roots@.last().bucket@ == bucket@,
            final(self).roots@.last().host@ == host@,
            final(self).roots@.last().time == now,
            final(self).roots@.last().hash@ == hash@,
            final(self).next_root_id == old(self).next_root_id + 1,
            final(self).chunks@ == old(self).chunks@,
            final(self).deletes@ == old(self).deletes@,
    {
        let id = self.next_root_id;
        let record = RootRecord {
            id,
            bucket: bucket.to_owned(),
            host: host.to_owned(),
            time: now,
            hash: hash.to_owned(),
        };
        let ghost pre = self.roots@;
        self.roots.push(record);
        self.next_root_id = id + 1;
        proof {
            assert(self.roots@.drop_last() =~= pre);
        }
    }

    /// Remove one root by id within a bucket; report whether it existed.
    pub fn delete_root(&mut self, bucket: &str, id: i64) -> (found: bool)
        requires
            store_wf(*old(self)),
        ensures
            store_wf(*final(self)),
            found == exists|i: int|
                0 <= i < old(self).roots@.len() && (#[trigger] old(self).roots@[i]).id == id && old(
                    self,
                ).roots@[i].bucket@ == bucket@,
            !found ==> *final(self) == *old(self),
            found ==> {
                &&& final(self).roots@.len() == old(self).roots@.len() - 1
                &&& exists|i: int|
                    0 <= i < old(self).roots@.len() && (#[trigger] old(self).roots@[i]).id == id
                        && old(self).roots@[i].bucket@ == bucket@ && final(self).roots@ == old(
                        self,
                    ).roots@.remove(i)
                &&& final(self).chunks@ == old(self).chunks@
                &&& final(self).deletes@ == old(self).deletes@
                &&& final(self).next_root_id == old(self).next_root_id
            },
    {
        let mut i: usize = 0;
        while i < self.roots.len()
            invariant
                store_wf(*self),
                0 <= i <= self.roots@.len(),
                *self == *old(self),
                forall|j: int|
                    0 <= j < i ==> !((#[trigger] self.roots@[j]).id == id && self.roots@[j].bucket@
                        == bucket@),
            decreases self.roots@.len() - i,
        {
            let row = &self.roots[i];
            if row.id == id && str_eq(row.bucket.as_str(), bucket) {
                let ghost pre = self.roots@;
                self.roots.remove(i);
                proof {
                    assert forall|a: int, b: int|
                        0 <= a < b < self.roots@.len() implies (#[trigger] self.roots@[a].id) != (
                        #[trigger] self.roots@[b].id) by {
                        let pa = if a < i as int {
                            a
                        } else {
                            a + 1
                        };
                        let pb = if b < i as int {
                            b
                        } else {
                            b + 1
                        };
                        assert(self.roots@[a] == pre[pa]);
                        assert(self.roots@[b] == pre[pb]);
                    }
                    assert forall|a: int| 0 <= a < self.roots@.len() implies (
                    #[trigger] self.roots@[a].id) < self.next_root_id by {
                        let pa = if a < i as int {
                            a
                        } else {
                            a + 1
                        };
                        assert(self.roots@[a] == pre[pa]);
                    }
                }
                return true;
            }
            i += 1;
        }
        false
    }
}

/// One line of the plain chunk listing: `hash size\n`.
pub open spec fn chunk_line_chars(c: ChunkRecord) -> Seq<char> {
    c.hash@ + seq![' '] + dec_of(c.size as nat) + seq!['\n']
}

/// The plain chunk listing of one bucket: one line per row, table order.
pub open spec fn chunk_listing_chars(s: Seq<ChunkRecord>, bucket: Seq<char>) -> Seq<char>
    decreases s.len(),
{
    if s.len() == 0 {
        Seq::empty()
    } else {
        chunk_listing_chars(s.drop_last(), bucket) + if s.last().bucket@ == bucket {
            chunk_line_chars(s.last())
        } else {
            Seq::empty()
        }
    }
}

/// The hashes of the bucket's rows whose bodies live on disk, table order.
pub open spec fn external_hashes_of(s: Seq<ChunkRecord>, bucket: Seq<char>) -> Seq<Seq<char>>
    decreases s.len(),
{
    if s.len() == 0 {
        Seq::empty()
    } else {
        let rest = external_hashes_of(s.drop_last(), bucket);
        if s.last().bucket@ == bucket && s.last().content is None {
            rest.push(s.last().hash@)
        } else {
            rest
        }
    }
}

/// How many of the bucket's rows keep their body on disk.
pub open spec fn external_count(s: Seq<ChunkRecord>, bucket: Seq<char>) -> int {
    external_hashes_of(s, bucket).len() as int
}

/// A prefix never holds more external rows than the whole table.
proof fn lemma_external_count_prefix(s: Seq<ChunkRecord>, bucket: Seq<char>, i: int)
    requires
        0 <= i <= s.len(),
    ensures
        external_count(s.take(i), bucket) <= external_count(s, bucket),
    decreases s.len() - i,
{
    if i < s.len() {
        lemma_external_count_prefix(s, bucket, i + 1);
        assert(s.take(i + 1).drop_last() =~= s.take(i));
    } else {
        assert(s.take(i) =~= s);
    }
}

/// One line of the validating listing: `hash declared_size on_disk_size\n`.
pub open spec fn validated_line_chars(hash: Seq<char>, size: u64, on_disk: int) -> Seq<char> {
    hash + seq![' '] + dec_of(size as nat) + seq![' '] + dec_of_int(on_disk) + seq!['\n']
}

/// The validating listing of one bucket, given the on-disk byte counts of
/// its external rows in table order: an inline row reports its declared
/// size, an external row what the filesystem said (-1 for a missing file).
pub open spec fn validated_listing_chars(
    s: Seq<ChunkRecord>,
    bucket: Seq<char>,
    disk: Seq<i64>,
) -> Seq<char>
    decreases s.len(),
{
    if s.len() == 0 {
        Seq::empty()
    } else {
        let rest = validated_listing_chars(s.drop_last(), bucket, disk);
        if s.last().bucket@ == bucket {
            if s.last().content is Some {
                rest + validated_line_chars(s.last().hash@, s.last().size, s.last().size as int)
            } else {
                rest + validated_line_chars(
                    s.last().hash@,
                    s.last().size,
                    disk[external_count(s.drop_last(), bucket)] as int,
                )
            }
        } else {
            rest
        }
    }
}

/// The record of one root in the roots listing:
/// `id\0host\0time\0hash`.
pub open spec fn root_record_chars(r: RootRecord) -> Seq<char> {
    dec_of_int(r.id as int) + seq!['\0'] + r.host@ + seq!['\0'] + dec_of_int(r.time as int)
        + seq!['\0'] + r.hash@
}

/// The records of one bucket's roots, in table order.
pub open spec fn roots_records(s: Seq<RootRecord>, bucket: Seq<char>) -> Seq<Seq<char>>
    decreases s.len(),
{
    if s.len() == 0 {
        Seq::empty()
    } else {
        roots_records(s.drop_last(), bucket) + if s.last().bucket@ == bucket {
            seq![root_record_chars(s.last())]
        } else {
            Seq::empty()
        }
    }
}

impl Store {
    /// The plain chunk listing body: `hash size` per line.
    pub fn list_chunks(&self, bucket: &str) -> (r: String)
        ensures
            r@ == chunk_listing_chars(self.chunks@, bucket@),
    {
        let mut r = String::new();
        let mut i: usize = 0;
        proof {
            reveal_strlit(" ");
            reveal_strlit("\n");
            assert(self.chunks@.take(0) =~= Seq::<ChunkRecord>::empty());
        }
        while i < self.chunks.len()
            invariant
                0 <= i <= self.chunks@.len(),
                r@ == chunk_listing_chars(self.chunks@.take(i as int), bucket@),
                " "@ =~= seq![' '],
                "\n"@ =~= seq!['\n'],
            decreases self.chunks@.len() - i,
        {
            let c = &self.chunks[i];
            proof {
                assert(self.chunks@.take(i + 1).drop_last() =~= self.chunks@.take(i as int));
                assert(self.chunks@.take(i + 1).last() == self.chunks@[i as int]);
            }
            if str_eq(c.bucket.as_str(), bucket) {
                r.append(c.hash.as_str());
                r.append(" ");
                r.append(u64_to_string(c.size).as_str());
                r.append("\n");
                proof {
                    assert(r@ =~= chunk_listing_chars(self.chunks@.take(i + 1), bucket@));
                }
            } else {
                proof {
                    assert(r@ =~= chunk_listing_chars(self.chunks@.take(i + 1), bucket@));
                }
            }
            i += 1;
        }
        proof {
            assert(self.chunks@.take(self.chunks@.len() as int) =~= self.chunks@);
        }
        r
    }

    /// One line of the validating chunk listing: `hash size on_disk\n`,
    /// where the caller reports the on-disk byte count of an external row,
    /// `-1` for a missing file, or the declared size for an inline row.
    pub fn chunk_line_validated(hash: &str, size: u64, on_disk: i64) -> (r: String)
        ensures
            r@ == hash@ + seq![' '] + dec_of(size as nat) + seq![' '] + dec_of_int(on_disk as int)
                + seq!['\n'],
    {
        proof {
            reveal_strlit(" ");
            reveal_strlit("\n");
        }
        let mut r = String::new();
        r.append(hash);
        r.append(" ");
        r.append(u64_to_string(size).as_str());
        r.append(" ");
        r.append(i64_to_string(on_disk).as_str());
        r.append("\n");
        proof {
            assert(r@ =~= hash@ + seq![' '] + dec_of(size as nat) + seq![' '] + dec_of_int(
                on_disk as int,
            ) + seq!['\n']);
        }
        r
    }

    /// The hashes of the bucket's external rows, in table order. A caller
    /// assembling the validating listing stats each one's file and hands
    /// the byte counts back in the same order.
    pub fn external_hashes(&self, bucket: &str) -> (r: Vec<String>)
        ensures
            views_of(r@) == external_hashes_of(self.chunks@, bucket@),
            r@.len() == external_count(self.chunks@, bucket@),
    {
        let mut r: Vec<String> = Vec::new();
        let mut i: usize = 0;
        proof {
            assert(self.chunks@.take(0) =~= Seq::<ChunkRecord>::empty());
            assert(views_of(r@) =~= external_hashes_of(self.chunks@.take(0), bucket@));
        }
        while i < self.chunks.len()
            invariant
                0 <= i <= self.chunks@.len(),
                views_of(r@) =~= external_hashes_of(self.chunks@.take(i as int), bucket@),
            decreases self.chunks@.len() - i,
        {
            let c = &self.chunks[i];
            proof {
                assert(self.chunks@.take(i + 1).drop_last() =~= self.chunks@.take(i as int));
                assert(self.chunks@.take(i + 1).last() == self.chunks@[i as int]);
            }
            if c.content.is_none() && str_eq(c.bucket.as_str(), bucket) {
                let ghost pre = r@;
                r.push(c.hash.as_str().to_owned());
                proof {
                    crate::serialize::lemma_views_push(pre, r@.last());
                    assert(views_of(r@) =~= external_hashes_of(
                        self.chunks@.take(i + 1),
                        bucket@,
                    ));
                }
            }
            i += 1;
        }
        proof {
            assert(self.chunks@.take(self.chunks@.len() as int) =~= self.chunks@);
        }
        r
    }

    /// The validating listing body: one `hash declared_size on_disk_size`
    /// line per row of the bucket, in table order. An inline row reports its
    /// declared size; an external row reports the byte count the caller
    /// found at its path, `-1` for a missing file.
    pub fn list_chunks_validated(&self, bucket: &str, disk_sizes: &Vec<i64>) -> (r: String)
        requires
            disk_sizes@.len() == external_count(self.chunks@, bucket@),
        ensures
            r@ == validated_listing_chars(self.chunks@, bucket@, disk_sizes@),
    {
        let mut r = String::new();
        let mut ext: usize = 0;
        let mut i: usize = 0;
        let dn = disk_sizes.len();
        proof {
            reveal_strlit(" ");
            reveal_strlit("\n");
            assert(self.chunks@.take(0) =~= Seq::<ChunkRecord>::empty());
        }
        while i < self.chunks.len()
            invariant
                0 <= i <= self.chunks@.len(),
                ext == external_count(self.chunks@.take(i as int), bucket@),
                dn == disk_sizes@.len(),
                disk_sizes@.len() == external_count(self.chunks@, bucket@),
                r@ == validated_listing_chars(self.chunks@.take(i as int), bucket@, disk_sizes@),
                " "@ =~= seq![' '],
                "\n"@ =~= seq!['\n'],
            decreases self.chunks@.len() - i,
        {
            let c = &self.chunks[i];
            proof {
                assert(self.chunks@.take(i + 1).drop_last() =~= self.chunks@.take(i as int));
                assert(self.chunks@.take(i + 1).last() == self.chunks@[i as int]);
                lemma_external_count_prefix(self.chunks@, bucket@, i + 1);
            }
            if str_eq(c.bucket.as_str(), bucket) {
                r.append(c.hash.as_str());
                r.append(" ");
                r.append(u64_to_string(c.size).as_str());
                r.append(" ");
                if c.content.is_some() {
                    r.append(u64_to_string(c.size).as_str());
                    proof {
                        assert(dec_of(c.size as nat) == dec_of_int(c.size as int));
                    }
                } else {
                    proof {
                        assert(external_count(self.chunks@.take(i + 1), bucket@) == ext + 1);
                        assert(ext < disk_sizes@.len());
                    }
                    r.append(i64_to_string(disk_sizes[ext]).as_str());
                    ext = ext + 1;
                }
                r.append("\n");
                proof {
                    assert(r@ =~= validated_listing_chars(
                        self.chunks@.take(i + 1),
                        bucket@,
                        disk_sizes@,
                    ));
                }
            } else {
                proof {
                    assert(r@ =~= validated_listing_chars(
                        self.chunks@.take(i + 1),
                        bucket@,
                        disk_sizes@,
                    ));
                }
            }
            i += 1;
        }
        proof {
            assert(self.chunks@.take(self.chunks@.len() as int) =~= self.chunks@);
        }
        r
    }

    /// The roots listing body: `id\0host\0time\0hash` records joined by
    /// double NULs, in table order.
    pub fn list_roots(&self, bucket: &str) -> (r: String)
        ensures
            r@ == join_records(roots_records(self.roots@, bucket@)),
    {
        let mut r = String::new();
        let mut any: bool = false;
        let mut i: usize = 0;
        proof {
            reveal_strlit("\0");
            reveal_strlit("\0\0");
            assert(self.roots@.take(0) =~= Seq::<RootRecord>::empty());
        }
        while i < self.roots.len()
            invariant
                0 <= i <= self.roots@.len(),
                r@ == join_records(roots_records(self.roots@.take(i as int), bucket@)),
                any == (roots_records(self.roots@.take(i as int), bucket@).len() > 0),
                "\0"@ =~= seq!['\0'],
                "\0\0"@ =~= crate::serialize::dsep(),
            decreases self.roots@.len() - i,
        {
            let row = &self.roots[i];
            proof {
                assert(self.roots@.take(i + 1).drop_last() =~= self.roots@.take(i as int));
                assert(self.roots@.take(i + 1).last() == self.roots@[i as int]);
            }
            if str_eq(row.bucket.as_str(), bucket) {
                if any {
                    r.append("\0\0");
                }
                r.append(i64_to_string(row.id).as_str());
                r.append("\0");
                r.append(row.host.as_str());
                r.append("\0");
                r.append(i64_to_string(row.time).as_str());
                r.append("\0");
                r.append(row.hash.as_str());
                any = true;
                proof {
                    let recs = roots_records(self.roots@.take(i + 1), bucket@);
                    let pre_recs = roots_records(self.roots@.take(i as int), bucket@);
                    assert(recs =~= pre_recs.push(root_record_chars(self.roots@[i as int])));
                    assert(recs.drop_last() =~= pre_recs);
                    assert(r@ =~= join_records(recs));
                }
            } else {
                proof {
                    assert(roots_records(self.roots@.take(i + 1), bucket@) =~= roots_records(
                        self.roots@.take(i as int),
                        bucket@,
                    ));
                }
            }
            i += 1;
        }
        proof {
            assert(self.roots@.take(self.roots@.len() as int) =~= self.roots@);
        }
        r
    }
}

/// Delete epoch correctness: a delete stamped at a time strictly after the
/// bucket's previous epoch leaves the status endpoint reporting a strictly
/// larger value than it did before the delete. The hypothesis on `now`
/// excludes the one family of inputs on which the property fails: the
/// stamp has second resolution, so a second delete within the same second
/// (or under a clock that stepped backwards) rewrites the epoch without
/// raising the status.
pub proof fn lemma_delete_epoch_correctness(
    pre: Seq<DeleteRow>,
    post: Seq<DeleteRow>,
    bucket: Seq<char>,
    now: i64,
)
    requires
        now > epoch_of(pre, bucket),
        epoch_of(post, bucket) == now,
    ensures
        epoch_of(post, bucket) > epoch_of(pre, bucket),
{
}

/// A delete row list without the bucket reports epoch 0.
proof fn lemma_epoch_not_present(s: Seq<DeleteRow>, bucket: Seq<char>)
    requires
        forall|j: int| 0 <= j < s.len() ==> (#[trigger] s[j].bucket@) != bucket,
    ensures
        epoch_of(s, bucket) == 0,
    decreases s.len(),
{
    if s.len() > 0 {
        lemma_epoch_not_present(s.drop_first(), bucket);
    }
}

/// Without a row for the bucket the epoch is 0, stated over has_delete_row.
proof fn lemma_epoch_not_present_general(s: Seq<DeleteRow>, bucket: Seq<char>)
    requires
        !has_delete_row(s, bucket),
    ensures
        epoch_of(s, bucket) == 0,
{
    assert(forall|j: int| 0 <= j < s.len() ==> (#[trigger] s[j].bucket@) != bucket);
    lemma_epoch_not_present(s, bucket);
}

/// Appending a row changes only the epoch of a bucket that had no row.
proof fn lemma_epoch_push(s: Seq<DeleteRow>, row: DeleteRow, bucket: Seq<char>)
    ensures
        epoch_of(s.push(row), bucket) == if has_delete_row(s, bucket) {
            epoch_of(s, bucket)
        } else if row.bucket@ == bucket {
            row.time as int
        } else {
            0
        },
    decreases s.len(),
{
    if s.len() == 0 {
        assert(!has_delete_row(s, bucket));
        assert(s.push(row)[0] == row);
        assert(s.push(row).drop_first() =~= Seq::<DeleteRow>::empty());
        assert(epoch_of(Seq::<DeleteRow>::empty(), bucket) == 0);
        if row.bucket@ == bucket {
            assert(epoch_of(s.push(row), bucket) == row.time as int);
        } else {
            assert(epoch_of(s.push(row), bucket) == 0);
        }
    } else {
        assert(s.push(row)[0] == s[0]);
        assert(s.push(row).drop_first() =~= s.drop_first().push(row));
        lemma_epoch_push(s.drop_first(), row, bucket);
        if s[0].bucket@ == bucket {
            assert(has_delete_row(s, bucket));
        } else {
            if has_delete_row(s, bucket) {
                let i = choose|i: int| 0 <= i < s.len() && (#[trigger] s[i]).bucket@ == bucket;
                assert(i > 0);
                assert(s.drop_first()[i - 1] == s[i]);
                assert(has_delete_row(s.drop_first(), bucket));
            }
            if has_delete_row(s.drop_first(), bucket) {
                let i = choose|i: int|
                    0 <= i < s.drop_first().len() && (#[trigger] s.drop_first()[i]).bucket@
                        == bucket;
                assert(s[i + 1] == s.drop_first()[i]);
                assert(has_delete_row(s, bucket));
            }
        }
    }
}

/// Removing a row for another bucket keeps the epoch; removing the
/// bucket's only row resets it to 0 when the list is duplicate-free.
proof fn lemma_epoch_remove(s: Seq<DeleteRow>, k: int, bucket: Seq<char>)
    requires
        0 <= k < s.len(),
        forall|i: int, j: int|
            0 <= i < j < s.len() ==> (#[trigger] s[i].bucket@) != (#[trigger] s[j].bucket@),
    ensures
        s[k].bucket@ == bucket ==> epoch_of(s.remove(k), bucket) == 0,
        s[k].bucket@ != bucket ==> epoch_of(s.remove(k), bucket) == epoch_of(s, bucket),
    decreases s.len(),
{
    if k == 0 {
        assert(s.remove(0) =~= s.drop_first());
        if s[0].bucket@ == bucket {
            assert(forall|j: int|
                0 <= j < s.drop_first().len() ==> (#[trigger] s.drop_first()[j].bucket@)
                    != bucket);
            lemma_epoch_not_present(s.drop_first(), bucket);
        }
    } else {
        assert(s.remove(k).drop_first() =~= s.drop_first().remove(k - 1));
        assert(s.remove(k)[0] == s[0]);
        assert(forall|i: int, j: int|
            0 <= i < j < s.drop_first().len() ==> (#[trigger] s.drop_first()[i].bucket@) != (
            #[trigger] s.drop_first()[j].bucket@));
        assert(s.drop_first()[k - 1] == s[k]);
        lemma_epoch_remove(s.drop_first(), k - 1, bucket);
    }
}

} // verus!
