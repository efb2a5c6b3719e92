//! Request handlers: authorization, identifier validation, and the store
//! operation of each endpoint, composed in the order the server applies
//! them. The HTTP and filesystem plumbing around these lives outside the
//! library; every status decision is made here.

use vstd::prelude::*;

use crate::auth::{check_auth, spec_authorized, User};
use crate::client::{join_with, split_on};
use crate::ident::{check_hash, is_hash_str};
use crate::numfmt::dec_of_int;
use crate::serialize::views_of;
use crate::store::{
    epoch_of, has_chunk, keep_chunks, store_wf, PutOutcome, Store, BULK_DELETE_LIMIT,
    CHUNK_BODY_LIMIT, ROOT_BODY_LIMIT,
};
use crate::AccessType;

verus! {

/// A request is granted when its Authorization header passes `check_auth`
/// at the required level.
pub open spec fn spec_granted(users: Seq<User>, header: Option<&String>, level: AccessType) -> bool {
    header matches Some(h) && spec_authorized(users, h@, level)
}

/// Install a chunk. Requires Put access; validates both identifiers;
/// rejects a duplicate with 409 and an oversized body with 400; stores
/// inline below `small_size` and externally otherwise.
pub fn handle_put_chunk(
    store: &mut Store,
    users: &Vec<User>,
    header: Option<&String>,
    bucket: &str,
    chunk: &str,
    body: Vec<u8>,
    small_size: usize,
    now: i64,
) -> (status: u16)
    requires
        store_wf(*old(store)),
    ensures
        store_wf(*final(store)),
        status != 200 ==> *final(store) == *old(store),
        !spec_granted(users@, header, AccessType::Put) ==> status == 401,
        spec_granted(users@, header, AccessType::Put) ==> {
            &&& !is_hash_str(bucket@) || !is_hash_str(chunk@) ==> status == 400
            &&& is_hash_str(bucket@) && is_hash_str(chunk@) ==> {
                &&& has_chunk(old(store).chunks@, bucket@, chunk@) ==> status == 409
                &&& !has_chunk(old(store).chunks@, bucket@, chunk@) && body@.len()
                    > CHUNK_BODY_LIMIT ==> status == 400
                &&& !has_chunk(old(store).chunks@, bucket@, chunk@) && body@.len()
                    <= CHUNK_BODY_LIMIT ==> {
                    &&& status == 200
                    &&& final(store).chunks@.len() == old(store).chunks@.len() + 1
                    &&& final(store).chunks@.drop_last() == old(store).chunks@
                    &&& final(store).chunks@.last().bucket@ == bucket@
                    &&& final(store).chunks@.last().hash@ == chunk@
                    &&& final(store).chunks@.last().size == body@.len()
                    &&& final(store).chunks@.last().time == now
                    &&& (final(store).chunks@.last().content is Some <==> body@.len() < small_size)
                    &&& (final(store).chunks@.last().content matches Some(c) ==> c@ == body@)
                    &&& final(store).deletes@ == old(store).deletes@
                    &&& final(store).roots@ == old(store).roots@
                }
            }
        },
{
    if !check_auth(users, header, AccessType::Put) {
        return 401;
    }
    if check_hash(bucket).is_err() {
        return 400;
    }
    if check_hash(chunk).is_err() {
        return 400;
    }
    match store.put_chunk(bucket, chunk, body, small_size, now) {
        PutOutcome::Conflict => 409,
        PutOutcome::TooLarge => 400,
        PutOutcome::Stored => 200,
    }
}

/// What fetching a chunk yields.
pub enum ChunkFetch {
    /// Missing or insufficient credentials: 401.
    Unauthorized,
    /// A malformed identifier: 400.
    BadId,
    /// No such row: 404.
    NotFound,
    /// A HEAD answer: 200 with this content length and an empty body.
    Head { size: u64 },
    /// A GET answer from an inline row: 200 with the stored bytes.
    Inline { content: Vec<u8> },
    /// A GET answer for an external row: the body lives on disk at the
    /// chunk's path; a missing file there is the recognized 500.
    External { size: u64 },
}

/// Fetch a chunk or its size. HEAD is a probe and requires Put access;
/// GET requires only Get access.
pub fn handle_get_chunk(
    store: &Store,
    users: &Vec<User>,
    header: Option<&String>,
    bucket: &str,
    chunk: &str,
    head: bool,
) -> (r: ChunkFetch)
    requires
        store_wf(*store),
    ensures
        ({
            let level = if head {
                AccessType::Put
            } else {
                AccessType::Get
            };
            &&& !spec_granted(users@, header, level) ==> r is Unauthorized
            &&& spec_granted(users@, header, level) ==> {
                &&& !is_hash_str(bucket@) || !is_hash_str(chunk@) ==> r is BadId
                &&& is_hash_str(bucket@) && is_hash_str(chunk@) ==> {
                    &&& !has_chunk(store.chunks@, bucket@, chunk@) ==> r is NotFound
                    &&& has_chunk(store.chunks@, bucket@, chunk@) ==> exists|i: int|
                        0 <= i < store.chunks@.len() && crate::store::chunk_matches(
                            #[trigger] store.chunks@[i],
                            bucket@,
                            chunk@,
                        ) && {
                            let row = store.chunks@[i];
                            if head {
                                r matches ChunkFetch::Head { size } && size == row.size
                            } else if row.content is Some {
                                r matches ChunkFetch::Inline { content } && content@
                                    == row.content->Some_0@
                            } else {
                                r matches ChunkFetch::External { size } && size == row.size
                            }
                        }
                }
            }
        }),
{
    let level = if head {
        AccessType::Put
    } else {
        AccessType::Get
    };
    if !check_auth(users, header, level) {
        return ChunkFetch::Unauthorized;
    }
    if check_hash(bucket).is_err() || check_hash(chunk).is_err() {
        return ChunkFetch::BadId;
    }
    let i = match store.lookup_chunk(bucket, chunk) {
        None => {
            return ChunkFetch::NotFound;
        },
        Some(i) => i,
    };
    let row = &store.chunks[i];
    if head {
        return ChunkFetch::Head { size: row.size };
    }
    match &row.content {
        Some(c) => {
            let content = c.clone();
            proof {
                assert forall|j: int| 0 <= j < c@.len() implies content@[j] == c@[j] by {
                    assert(vstd::pervasive::cloned::<u8>(c@[j], content@[j]));
                }
                assert(content@ =~= c@);
            }
            ChunkFetch::Inline { content }
        },
        None => ChunkFetch::External { size: row.size },
    }
}

/// Bulk delete. Requires Delete access; the body lists hashes separated by
/// single NULs, each of which must be well-formed; rows that exist go, the
/// epoch is stamped, and a request naming any absent hash reports 404
/// after the deletion has applied.
pub fn handle_delete_chunks(
    store: &mut Store,
    users: &Vec<User>,
    header: Option<&String>,
    bucket: &str,
    body: &str,
    now: i64,
) -> (status: u16)
    requires
        store_wf(*old(store)),
    ensures
        store_wf(*final(store)),
        !spec_granted(users@, header, AccessType::Delete) ==> status == 401 && *final(store)
            == *old(store),
        spec_granted(users@, header, AccessType::Delete) && !is_hash_str(bucket@) ==> status == 400
            && *final(store) == *old(store),
        spec_granted(users@, header, AccessType::Delete) && is_hash_str(bucket@) && (
        vstd::utf8::encode_utf8(body@).len() as usize) >= BULK_DELETE_LIMIT ==> status == 400
            && *final(store) == *old(store),
        spec_granted(users@, header, AccessType::Delete) && is_hash_str(bucket@) && (
        vstd::utf8::encode_utf8(body@).len() as usize) < BULK_DELETE_LIMIT ==> exists|
            hs: Seq<Seq<char>>,
        |
            {
                &&& #[trigger] join_with(hs, '\0') == body@
                &&& forall|k: int, j: int|
                    0 <= k < hs.len() && 0 <= j < hs[k].len() ==> #[trigger] hs[k][j] != '\0'
                &&& hs.len() >= 1
                &&& if !(forall|k: int| 0 <= k < hs.len() ==> is_hash_str(#[trigger] hs[k])) {
                    status == 400 && *final(store) == *old(store)
                } else {
                    &&& final(store).chunks@ == keep_chunks(old(store).chunks@, bucket@, hs)
                    &&& epoch_of(final(store).deletes@, bucket@) == now
                    &&& final(store).roots@ == old(store).roots@
                    &&& (status == 200 <==> old(store).chunks@.len() - final(store).chunks@.len()
                        == hs.len())
                    &&& (status != 200 ==> status == 404)
                }
            },
{
    if !check_auth(users, header, AccessType::Delete) {
        return 401;
    }
    if check_hash(bucket).is_err() {
        return 400;
    }
    if body.len() >= BULK_DELETE_LIMIT {
        return 400;
    }
    let hashes = split_on(body, '\0');
    let ghost hs = views_of(hashes@);
    let mut k: usize = 0;
    while k < hashes.len()
        invariant
            0 <= k <= hashes@.len(),
            hs == views_of(hashes@),
            forall|j: int| 0 <= j < k ==> is_hash_str(#[trigger] hs[j]),
            *store == *old(store),
            store_wf(*old(store)),
            spec_granted(users@, header, AccessType::Delete),
            is_hash_str(bucket@),
            join_with(hs, '\0') == body@,
            hs.len() >= 1,
            forall|a: int, b: int|
                0 <= a < hs.len() && 0 <= b < hs[a].len() ==> #[trigger] hs[a][b] != '\0',
        decreases hashes@.len() - k,
    {
        if check_hash(hashes[k].as_str()).is_err() {
            proof {
                assert(hs[k as int] == hashes@[k as int]@);
                assert(!is_hash_str(hs[k as int]));
            }
            return 400;
        }
        proof {
            assert(hs[k as int] == hashes@[k as int]@);
        }
        k += 1;
    }
    let (_removed, all_found) = store.delete_chunks(bucket, &hashes, now);
    if all_found {
        200
    } else {
        404
    }
}

/// Delete one chunk: the bulk path with a single hash. Requires Delete
/// access; 404 when the row does not exist, with the epoch stamped anyway.
pub fn handle_delete_chunk(
    store: &mut Store,
    users: &Vec<User>,
    header: Option<&String>,
    bucket: &str,
    chunk: &str,
    now: i64,
) -> (status: u16)
    requires
        store_wf(*old(store)),
    ensures
        store_wf(*final(store)),
        !spec_granted(users@, header, AccessType::Delete) ==> status == 401 && *final(store)
            == *old(store),
        spec_granted(users@, header, AccessType::Delete) && (!is_hash_str(bucket@) || !is_hash_str(
            chunk@,
        )) ==> status == 400 && *final(store) == *old(store),
        spec_granted(users@, header, AccessType::Delete) && is_hash_str(bucket@) && is_hash_str(
            chunk@,
        ) ==> {
            &&& final(store).chunks@ == keep_chunks(old(store).chunks@, bucket@, seq![chunk@])
            &&& epoch_of(final(store).deletes@, bucket@) == now
            &&& final(store).roots@ == old(store).roots@
            &&& (status == 200 <==> old(store).chunks@.len() - final(store).chunks@.len() == 1)
            &&& (status != 200 ==> status == 404)
        },
{
    if !check_auth(users, header, AccessType::Delete) {
        return 401;
    }
    if check_hash(bucket).is_err() || check_hash(chunk).is_err() {
        return 400;
    }
    let mut hashes: Vec<String> = Vec::new();
    hashes.push(chunk.to_owned());
    proof {
        assert(views_of(hashes@) =~= seq![chunk@]);
    }
    let (_removed, all_found) = store.delete_chunks(bucket, &hashes, now);
    if all_found {
        200
    } else {
        404
    }
}

/// A reply of the status and roots endpoints: an HTTP status and a body.
pub struct Reply {
    pub status: u16,
    pub body: String,
}

/// Report the bucket's delete epoch as decimal text. Requires Put access.
pub fn handle_get_status(
    store: &Store,
    users: &Vec<User>,
    header: Option<&String>,
    bucket: &str,
) -> (r: Reply)
    ensures
        !spec_granted(users@, header, AccessType::Put) ==> r.status == 401,
        spec_granted(users@, header, AccessType::Put) && !is_hash_str(bucket@) ==> r.status == 400,
        spec_granted(users@, header, AccessType::Put) && is_hash_str(bucket@) ==> r.status == 200
            && r.body@ == dec_of_int(epoch_of(store.deletes@, bucket@)),
{
    if !check_auth(users, header, AccessType::Put) {
        return Reply { status: 401, body: String::new() };
    }
    if check_hash(bucket).is_err() {
        return Reply { status: 400, body: String::new() };
    }
    Reply { status: 200, body: store.status_text(bucket) }
}

/// List the bucket's roots. Requires Get access.
pub fn handle_get_roots(
    store: &Store,
    users: &Vec<User>,
    header: Option<&String>,
    bucket: &str,
) -> (r: Reply)
    ensures
        !spec_granted(users@, header, AccessType::Get) ==> r.status == 401,
        spec_granted(users@, header, AccessType::Get) && !is_hash_str(bucket@) ==> r.status == 400,
        spec_granted(users@, header, AccessType::Get) && is_hash_str(bucket@) ==> r.status == 200
            && r.body@ == crate::serialize::join_records(
            crate::store::roots_records(store.roots@, bucket@),
        ),
{
    if !check_auth(users, header, AccessType::Get) {
        return Reply { status: 401, body: String::new() };
    }
    if check_hash(bucket).is_err() {
        return Reply { status: 400, body: String::new() };
    }
    Reply { status: 200, body: store.list_roots(bucket) }
}

/// List the bucket's chunks, `hash size` per line. The plain listing is a
/// probe and requires Put access; the validating form requires Get access
/// and is assembled by the caller row by row, since on-disk sizes of
/// external rows come from the filesystem.
pub fn handle_list_chunks(
    store: &Store,
    users: &Vec<User>,
    header: Option<&String>,
    bucket: &str,
    full: bool,
    disk_sizes: &Vec<i64>,
) -> (r: Reply)
    requires
        full ==> disk_sizes@.len() == crate::store::external_count(store.chunks@, bucket@),
    ensures
        ({
            let level = if full {
                AccessType::Get
            } else {
                AccessType::Put
            };
            &&& !spec_granted(users@, header, level) ==> r.status == 401
            &&& spec_granted(users@, header, level) && !is_hash_str(bucket@) ==> r.status == 400
            &&& spec_granted(users@, header, level) && is_hash_str(bucket@) && !full ==> r.status
                == 200 && r.body@ == crate::store::chunk_listing_chars(store.chunks@, bucket@)
            &&& spec_granted(users@, header, level) && is_hash_str(bucket@) && full ==> r.status
                == 200 && r.body@ == crate::store::validated_listing_chars(
                store.chunks@,
                bucket@,
                disk_sizes@,
            )
        }),
{
    let level = if full {
        AccessType::Get
    } else {
        AccessType::Put
    };
    if !check_auth(users, header, level) {
        return Reply { status: 401, body: String::new() };
    }
    if check_hash(bucket).is_err() {
        return Reply { status: 400, body: String::new() };
    }
    if full {
        Reply { status: 200, body: store.list_chunks_validated(bucket, disk_sizes) }
    } else {
        Reply { status: 200, body: store.list_chunks(bucket) }
    }
}

/// Whether a string holds a NUL character, which the record format cannot
/// carry.
pub fn has_nul(s: &str) -> (r: bool)
    ensures
        r == exists|i: int| 0 <= i < s@.len() && s@[i] == '\0',
{
    let len = s.unicode_len();
    let mut i: usize = 0;
    while i < len
        invariant
            0 <= i <= len,
            len == s@.len(),
            forall|j: int| 0 <= j < i ==> s@[j] != '\0',
        decreases len - i,
    {
        if s.get_char(i) == '\0' {
            return true;
        }
        i += 1;
    }
    false
}

/// Register a snapshot root. Requires Put access; the host must carry no
/// NUL and the body must be one well-formed hash.
pub fn handle_put_root(
    store: &mut Store,
    users: &Vec<User>,
    header: Option<&String>,
    bucket: &str,
    host: &str,
    body: &str,
    now: i64,
) -> (status: u16)
    requires
        store_wf(*old(store)),
        old(store).next_root_id < i64::MAX,
    ensures
        store_wf(*final(store)),
        status != 200 ==> *final(store) == *old(store),
        !spec_granted(users@, header, AccessType::Put) ==> status == 401,
        spec_granted(users@, header, AccessType::Put) ==> {
            &&& !is_hash_str(bucket@) || (exists|i: int|
                0 <= i < host@.len() && host@[i] == '\0') || (vstd::utf8::encode_utf8(
                body@,
            ).len() as usize) > ROOT_BODY_LIMIT || !is_hash_str(body@) ==> status == 400
            &&& is_hash_str(bucket@) && !(exists|i: int|
                0 <= i < host@.len() && host@[i] == '\0') && (vstd::utf8::encode_utf8(
                body@,
            ).len() as usize) <= ROOT_BODY_LIMIT && is_hash_str(body@) ==> {
                &&& status == 200
                &&& final(store).roots@.len() == old(store).roots@.len() + 1
                &&& final(store).roots@.drop_last() == old(store).roots@
                &&& final(store).roots@.last().id == old(store).next_root_id
                &&& final(store).roots@.last().bucket@ == bucket@
                &&& final(store).roots@.last().host@ == host@
                &&& final(store).roots@.last().time == now
                &&& final(store).roots@.last().hash@ == body@
                &&& final(store).chunks@ == old(store).chunks@
                &&& final(store).deletes@ == old(store).deletes@
            }
        },
{
    if !check_auth(users, header, AccessType::Put) {
        return 401;
    }
    if check_hash(bucket).is_err() {
        return 400;
    }
    if has_nul(host) {
        return 400;
    }
    if body.len() > ROOT_BODY_LIMIT {
        return 400;
    }
    if check_hash(body).is_err() {
        return 400;
    }
    store.put_root(bucket, host, body, now);
    200
}

/// Delete one root by its decimal id. Requires Delete access; an id that
/// parses to no row, or does not parse at all, reports 404.
pub fn handle_delete_root(
    store: &mut Store,
    users: &Vec<User>,
    header: Option<&String>,
    bucket: &str,
    id_text: &str,
) -> (status: u16)
    requires
        store_wf(*old(store)),
    ensures
        store_wf(*final(store)),
        !spec_granted(users@, header, AccessType::Delete) ==> status == 401 && *final(store)
            == *old(store),
        spec_granted(users@, header, AccessType::Delete) && !is_hash_str(bucket@) ==> status == 400
            && *final(store) == *old(store),
        spec_granted(users@, header, AccessType::Delete) && is_hash_str(bucket@) ==> {
            &&& status == 200 || status == 404
            &&& (status == 200 <==> id_text@.len() > 0 && (forall|k: int|
                0 <= k < id_text@.len() ==> crate::numfmt::is_dec_digit(#[trigger] id_text@[k]))
                && crate::numfmt::dec_val(id_text@) <= i64::MAX && (exists|i: int|
                0 <= i < old(store).roots@.len() && (#[trigger] old(store).roots@[i]).id
                    == crate::numfmt::dec_val(id_text@) && old(store).roots@[i].bucket@
                    == bucket@))
            &&& status == 404 ==> *final(store) == *old(store)
            &&& status == 200 ==> exists|i: int|
                {
                    &&& 0 <= i < old(store).roots@.len()
                    &&& (#[trigger] old(store).roots@[i]).id == crate::numfmt::dec_val(id_text@)
                    &&& old(store).roots@[i].bucket@ == bucket@
                    &&& final(store).roots@ == old(store).roots@.remove(i)
                    &&& final(store).chunks@ == old(store).chunks@
                    &&& final(store).deletes@ == old(store).deletes@
                }
        },
{
    if !check_auth(users, header, AccessType::Delete) {
        return 401;
    }
    if check_hash(bucket).is_err() {
        return 400;
    }
    let id = match crate::numfmt::parse_decimal(id_text) {
        Err(_) => {
            return 404;
        },
        Ok(v) => v,
    };
    if store.delete_root(bucket, id) {
        200
    } else {
        404
    }
}

} // verus!
