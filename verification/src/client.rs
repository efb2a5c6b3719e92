//! Client-side backup decisions.
//!
//! The walker and the HTTP transport live outside the library; every
//! decision they act on is taken here. The existence probe consults the
//! local cache first, skips the network for small chunks, and reads the
//! HTTP status; the uploader seals and sends a chunk only when the probe
//! reported it absent; an unchanged file is served from the cache without
//! re-reading it.

use vstd::prelude::*;

use crate::Error;

verus! {

/// Plaintext chunks are at most this large.
pub const CHUNK_SIZE: u64 = 64 * 1024 * 1024;

/// Below this size a HEAD probe costs more than re-uploading the chunk.
pub const PROBE_LIMIT: u64 = 16 * 1024;

/// The answer of the existence probe.
#[derive(Clone, Copy, PartialEq, Eq, Structural, Debug)]
pub enum HasChunkResult {
    /// The local cache says the server holds the chunk.
    YesCached,
    /// A network probe says the server holds the chunk.
    Yes,
    /// The chunk must be uploaded.
    No,
}

/// How the existence probe proceeds after the cache lookup.
#[derive(Clone, Copy, PartialEq, Eq, Structural, Debug)]
pub enum ProbeStep {
    /// The cache answers; no network traffic.
    UseCache,
    /// Too small to be worth a probe; treat as absent and re-upload.
    AssumeAbsent,
    /// Ask the server with a HEAD request.
    Probe,
}

/// A cached existence row is trusted only while it is newer than the
/// server's delete epoch; any row at or before the epoch is ignored.
pub fn remote_row_valid(row_time: i64, last_delete: i64) -> (r: bool)
    ensures
        r == (row_time > last_delete),
{
    row_time > last_delete
}

/// Decide how the existence probe proceeds: a valid cache row answers
/// outright; a small chunk skips the network and is re-uploaded; anything
/// else is probed.
pub fn probe_step(cached: bool, size: Option<u64>) -> (r: ProbeStep)
    ensures
        cached ==> r == ProbeStep::UseCache,
        !cached && (size matches Some(s) && s < PROBE_LIMIT) ==> r == ProbeStep::AssumeAbsent,
        !cached && !(size matches Some(s) && s < PROBE_LIMIT) ==> r == ProbeStep::Probe,
{
    if cached {
        ProbeStep::UseCache
    } else {
        match size {
            Some(s) if s < PROBE_LIMIT => ProbeStep::AssumeAbsent,
            _ => ProbeStep::Probe,
        }
    }
}

/// Read the HEAD probe's status: 200 means present, 404 means absent, and
/// every other status fails the run.
pub fn probe_result(status: u16) -> (r: Result<HasChunkResult, Error>)
    ensures
        status == 200 ==> r == Result::<HasChunkResult, Error>::Ok(HasChunkResult::Yes),
        status == 404 ==> r == Result::<HasChunkResult, Error>::Ok(HasChunkResult::No),
        status != 200 && status != 404 ==> r == Result::<HasChunkResult, Error>::Err(
            Error::HttpStatus(status),
        ),
{
    if status == 200 {
        Ok(HasChunkResult::Yes)
    } else if status == 404 {
        Ok(HasChunkResult::No)
    } else {
        Err(Error::HttpStatus(status))
    }
}

/// An upload happens exactly when the probe reported the chunk absent.
pub open spec fn spec_push_uploads(hc: HasChunkResult) -> bool {
    hc == HasChunkResult::No
}

/// What the uploader does after the existence probe.
#[derive(Clone, Copy, PartialEq, Eq, Structural, Debug)]
pub struct PushPlan {
    /// Seal and PUT the chunk.
    pub upload: bool,
    /// Refresh the local existence row with the current time.
    pub refresh_remote: bool,
}

/// Plan the upload: send the chunk only if the probe reported it absent,
/// and refresh the cache row on every outcome the cache did not produce.
pub fn plan_push(hc: HasChunkResult) -> (r: PushPlan)
    ensures
        r.upload == spec_push_uploads(hc),
        r.refresh_remote == (hc != HasChunkResult::YesCached),
{
    PushPlan { upload: hc == HasChunkResult::No, refresh_remote: hc != HasChunkResult::YesCached }
}

/// Read the PUT's status: 200 is success and 409 is a benign race (another
/// client installed the same chunk first); both leave the chunk present.
pub fn put_status_ok(status: u16) -> (r: bool)
    ensures
        r == (status == 200 || status == 409),
{
    status == 200 || status == 409
}

/// The size of the read window for a file: one chunk, or the whole file if
/// it is smaller.
pub fn read_window(size: u64) -> (r: u64)
    ensures
        r == if size < CHUNK_SIZE {
            size as int
        } else {
            CHUNK_SIZE as int
        },
{
    if size < CHUNK_SIZE {
        size
    } else {
        CHUNK_SIZE
    }
}

/// How many chunks a file of the given size splits into.
pub open spec fn spec_chunk_count(size: u64) -> int {
    (size + CHUNK_SIZE - 1) / (CHUNK_SIZE as int)
}

/// The content field of a zero-length file: no chunk is ever produced.
pub fn empty_content() -> (r: String)
    ensures
        r@ == "empty"@,
{
    String::from_str("empty")
}

/// The scan-pass placeholder for a file's chunk list: one underscore run of
/// the same length the real comma-separated list of 64-character hashes
/// will have, so downstream size estimates agree between the passes.
pub fn scan_placeholder(size: u64) -> (r: String)
    requires
        size >= 1,
        size <= u64::MAX - CHUNK_SIZE + 1,
        65 * spec_chunk_count(size) - 1 <= usize::MAX,
    ensures
        r@.len() == 65 * spec_chunk_count(size) - 1,
        forall|i: int| 0 <= i < r@.len() ==> r@[i] == '_',
{
    let c: u64 = CHUNK_SIZE;
    let n: u64 = (size - 1) / c + 1;
    proof {
        assert(((size - 1) as int) / (c as int) + 1 == ((size + c - 1) as int) / (c as int))
            by (nonlinear_arith)
            requires
                1 <= size,
                c == 67108864u64,
        ;
        assert(((size - 1) as int) / (c as int) <= ((0xffff_ffff_ffff_fffeu64) as int) / (
        c as int)) by (nonlinear_arith)
            requires
                1 <= size <= 0xffff_ffff_ffff_ffffu64,
                c == 67108864u64,
        ;
        assert(n == spec_chunk_count(size));
    }
    let total_u: u64 = 65 * n - 1;
    let total: usize = total_u as usize;
    let mut r = String::new();
    let mut i: usize = 0;
    proof {
        reveal_strlit("_");
    }
    while i < total
        invariant
            0 <= i <= total,
            r@.len() == i,
            forall|j: int| 0 <= j < i ==> r@[j] == '_',
            "_"@ =~= seq!['_'],
        decreases total - i,
    {
        r.append("_");
        i += 1;
    }
    r
}

/// The concatenation of a list of strings with a single-character
/// separator between neighbours.
pub open spec fn join_with(hs: Seq<Seq<char>>, sep: char) -> Seq<char>
    decreases hs.len(),
{
    if hs.len() == 0 {
        Seq::empty()
    } else if hs.len() == 1 {
        hs[0]
    } else {
        join_with(hs.drop_last(), sep) + seq![sep] + hs.last()
    }
}

/// The comma-separated concatenation of a list of chunk hashes, as stored
/// in the client cache's files table.
pub open spec fn chunk_list_chars(hs: Seq<Seq<char>>) -> Seq<char> {
    join_with(hs, ',')
}

/// Join chunk hashes into the cached comma-separated list.
pub fn join_chunk_list(hs: &Vec<String>) -> (r: String)
    ensures
        r@ == chunk_list_chars(crate::serialize::views_of(hs@)),
{
    let ghost views = crate::serialize::views_of(hs@);
    let mut r = String::new();
    let mut i: usize = 0;
    proof {
        reveal_strlit(",");
    }
    while i < hs.len()
        invariant
            0 <= i <= hs@.len(),
            views == crate::serialize::views_of(hs@),
            r@ == chunk_list_chars(views.take(i as int)),
            ","@ =~= seq![','],
        decreases hs@.len() - i,
    {
        if i != 0 {
            r.append(",");
        }
        r.append(hs[i].as_str());
        proof {
            assert(views.take(i + 1).drop_last() =~= views.take(i as int));
            assert(views.take(i + 1).last() == hs@[i as int]@);
            if i == 0 {
                assert(r@ =~= chunk_list_chars(views.take(1)));
            }
        }
        i += 1;
    }
    proof {
        assert(views.take(hs@.len() as int) =~= views);
    }
    r
}

/// Split a string on a separator character. The pieces contain no
/// separator, there is at least one, and joining them with the separator
/// restores the input exactly.
pub fn split_on(s: &str, sep: char) -> (r: Vec<String>)
    ensures
        r@.len() >= 1,
        forall|i: int, j: int|
            0 <= i < r@.len() && 0 <= j < r@[i]@.len() ==> #[trigger] r@[i]@[j] != sep,
        join_with(crate::serialize::views_of(r@), sep) == s@,
{
    let len = s.unicode_len();
    let mut r: Vec<String> = Vec::new();
    let mut start: usize = 0;
    let mut i: usize = 0;
    while i < len
        invariant
            0 <= start <= i <= len,
            len == s@.len(),
            forall|a: int, b: int|
                0 <= a < r@.len() && 0 <= b < r@[a]@.len() ==> #[trigger] r@[a]@[b] != sep,
            forall|b: int| start <= b < i ==> s@[b] != sep,
            join_with(
                crate::serialize::views_of(r@).push(s@.subrange(start as int, i as int)),
                sep,
            ) == s@.take(i as int),
        decreases len - i,
    {
        let c = s.get_char(i);
        let ghost pre_r = r@;
        let ghost piece = s@.subrange(start as int, i as int);
        if c == sep {
            r.push(s.substring_char(start, i).to_owned());
            proof {
                crate::serialize::lemma_views_push(pre_r, r@.last());
                let views = crate::serialize::views_of(r@).push(
                    s@.subrange(i + 1, i + 1),
                );
                assert(views.drop_last() =~= crate::serialize::views_of(pre_r).push(piece));
                assert(views.last() =~= Seq::<char>::empty());
                assert(join_with(views, sep) =~= s@.take(i + 1));
            }
            start = i + 1;
        } else {
            proof {
                let old_views = crate::serialize::views_of(r@).push(piece);
                let views = crate::serialize::views_of(r@).push(
                    s@.subrange(start as int, i + 1),
                );
                assert(s@.subrange(start as int, i + 1) =~= piece.push(s@[i as int]));
                if views.len() == 1 {
                    assert(join_with(views, sep) =~= s@.take(i + 1));
                } else {
                    assert(views.drop_last() =~= old_views.drop_last());
                    assert(join_with(old_views.drop_last(), sep) + seq![sep] + piece =~= s@.take(
                        i as int,
                    ));
                    assert(join_with(views, sep) =~= s@.take(i + 1));
                }
            }
        }
        i += 1;
    }
    let ghost pre_r = r@;
    r.push(s.substring_char(start, len).to_owned());
    proof {
        crate::serialize::lemma_views_push(pre_r, r@.last());
        assert(crate::serialize::views_of(r@) =~= crate::serialize::views_of(pre_r).push(
            s@.subrange(start as int, len as int),
        ));
        assert(s@.take(len as int) =~= s@);
    }
    r
}

/// Split a cached comma-separated chunk list back into hashes.
pub fn split_chunk_list(s: &str) -> (r: Vec<String>)
    ensures
        r@.len() >= 1,
        forall|i: int, j: int|
            0 <= i < r@.len() && 0 <= j < r@[i]@.len() ==> #[trigger] r@[i]@[j] != ',',
        chunk_list_chars(crate::serialize::views_of(r@)) == s@,
{
    split_on(s, ',')
}

/// How the client handles one file in the transfer pass.
#[derive(Clone, Copy, PartialEq, Eq, Structural, Debug)]
pub enum FileAction {
    /// Return the cached chunk list; the file is not read and nothing is
    /// uploaded.
    UseCached,
    /// Read the file, hash and push its chunks, and rewrite the cache row.
    ReadAndPush,
}

/// Whether the cached chunk list may stand in for re-reading the file.
pub open spec fn spec_plan_file(recheck: bool, cached_found: bool, all_present: bool) -> FileAction {
    if !recheck && cached_found && all_present {
        FileAction::UseCached
    } else {
        FileAction::ReadAndPush
    }
}

/// Every probed chunk of the cached list is still present somewhere
/// (cache or server); one absent chunk invalidates the whole fast path.
pub fn all_chunks_present(probes: &Vec<HasChunkResult>) -> (r: bool)
    ensures
        r == forall|i: int| 0 <= i < probes@.len() ==> #[trigger] probes@[i] != HasChunkResult::No,
{
    let mut i: usize = 0;
    while i < probes.len()
        invariant
            0 <= i <= probes@.len(),
            forall|j: int| 0 <= j < i ==> #[trigger] probes@[j] != HasChunkResult::No,
        decreases probes@.len() - i,
    {
        if probes[i] == HasChunkResult::No {
            return false;
        }
        i += 1;
    }
    true
}

/// Decide whether a file's cached chunk list is used as-is. The cache is
/// consulted only with `recheck` off, only when it holds a row for the
/// file's current path, size and mtime, and only if every cached chunk is
/// still present.
pub fn plan_file(recheck: bool, cached_found: bool, all_present: bool) -> (r: FileAction)
    ensures
        r == spec_plan_file(recheck, cached_found, all_present),
{
    if !recheck && cached_found && all_present {
        FileAction::UseCached
    } else {
        FileAction::ReadAndPush
    }
}

/// Cache idempotence: a run with `recheck` off over an unchanged tree whose
/// chunks the server still holds reads no file body and uploads nothing —
/// every file is served from the cache and every probe answer forbids a PUT.
pub proof fn lemma_cache_idempotence(
    recheck: bool,
    cached_found: bool,
    probes: Seq<HasChunkResult>,
)
    requires
        !recheck,
        cached_found,
        forall|i: int| 0 <= i < probes.len() ==> #[trigger] probes[i] != HasChunkResult::No,
    ensures
        spec_plan_file(
            recheck,
            cached_found,
            forall|i: int| 0 <= i < probes.len() ==> #[trigger] probes[i] != HasChunkResult::No,
        ) == FileAction::UseCached,
        forall|i: int| 0 <= i < probes.len() ==> !spec_push_uploads(#[trigger] probes[i]),
{
}

} // verus!
