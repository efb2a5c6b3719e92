use mbackup::auth::{access_ge, check_auth, User};
use mbackup::client::{
    all_chunks_present, plan_file, plan_push, probe_result, probe_step, put_status_ok,
    remote_row_valid, FileAction, HasChunkResult, ProbeStep,
};
use mbackup::handlers::{
    handle_delete_chunk, handle_delete_chunks, handle_delete_root, handle_get_chunk,
    handle_get_roots, handle_get_status, handle_list_chunks, handle_put_chunk, handle_put_root,
    ChunkFetch,
};
use mbackup::router::{route, Method, Route};
use mbackup::store::Store;
use mbackup::AccessType;

const B: &str = "1111111111111111111111111111111111111111111111111111111111111111";
const H1: &str = "aaaaaaaaaaaaaaaaaaaaaaaaaaaaaaaaaaaaaaaaaaaaaaaaaaaaaaaaaaaaaaaa";
const H2: &str = "bbbbbbbbbbbbbbbbbbbbbbbbbbbbbbbbbbbbbbbbbbbbbbbbbbbbbbbbbbbbbbbb";
const H3: &str = "cccccccccccccccccccccccccccccccccccccccccccccccccccccccccccccccc";

fn users() -> Vec<User> {
    vec![
        User {
            name: "getter".to_string(),
            password: "pw1".to_string(),
            access_level: AccessType::Get,
        },
        User {
            name: "putter".to_string(),
            password: "pw2".to_string(),
            access_level: AccessType::Put,
        },
        User {
            name: "deleter".to_string(),
            password: "pw3".to_string(),
            access_level: AccessType::Delete,
        },
    ]
}

fn basic(name: &str, password: &str) -> String {
    format!("Basic {}", base64::encode(format!("{}:{}", name, password)))
}

#[test]
fn basic_auth_matches_users() {
    let us = users();
    let h = basic("putter", "pw2");
    assert!(check_auth(&us, Some(&h), AccessType::Put));
    assert!(check_auth(&us, Some(&h), AccessType::Get));
    assert!(!check_auth(&us, Some(&h), AccessType::Delete));
    assert!(!check_auth(&us, None, AccessType::Get));
    let wrong = basic("putter", "bad");
    assert!(!check_auth(&us, Some(&wrong), AccessType::Get));
}

#[test]
fn access_levels_are_ordered() {
    // Get < Put < Delete; a higher level includes every lower one
    assert!(access_ge(AccessType::Delete, AccessType::Get));
    assert!(access_ge(AccessType::Delete, AccessType::Put));
    assert!(access_ge(AccessType::Delete, AccessType::Delete));
    assert!(access_ge(AccessType::Put, AccessType::Get));
    assert!(!access_ge(AccessType::Get, AccessType::Put));
    assert!(!access_ge(AccessType::Put, AccessType::Delete));
}

#[test]
fn auth_levels_gate_the_chunk_endpoints() {
    let us = users();
    let mut store = Store::new();
    let getter = basic("getter", "pw1");
    let putter = basic("putter", "pw2");
    let deleter = basic("deleter", "pw3");

    // a Get user cannot PUT
    let st = handle_put_chunk(&mut store, &us, Some(&getter), B, H1, vec![1], 128, 10);
    assert_eq!(st, 401);
    // a Put user can PUT and HEAD
    let st = handle_put_chunk(&mut store, &us, Some(&putter), B, H1, vec![1], 128, 10);
    assert_eq!(st, 200);
    let r = handle_get_chunk(&store, &us, Some(&putter), B, H1, true);
    assert!(matches!(r, ChunkFetch::Head { size: 1 }));
    // a Get user can GET
    let r = handle_get_chunk(&store, &us, Some(&getter), B, H1, false);
    assert!(matches!(r, ChunkFetch::Inline { .. }));
    // a Get user cannot HEAD (a probe needs Put)
    let r = handle_get_chunk(&store, &us, Some(&getter), B, H1, true);
    assert!(matches!(r, ChunkFetch::Unauthorized));
    // only a Delete user can delete
    let st = handle_delete_chunk(&mut store, &us, Some(&putter), B, H1, 11);
    assert_eq!(st, 401);
    let st = handle_delete_chunk(&mut store, &us, Some(&deleter), B, H1, 11);
    assert_eq!(st, 200);
}

#[test]
fn duplicate_put_conflicts_and_leaves_the_chunk() {
    let us = users();
    let mut store = Store::new();
    let putter = basic("putter", "pw2");
    assert_eq!(
        handle_put_chunk(&mut store, &us, Some(&putter), B, H1, vec![1, 2], 128, 1),
        200
    );
    assert_eq!(
        handle_put_chunk(&mut store, &us, Some(&putter), B, H1, vec![1, 2], 128, 2),
        409
    );
    let r = handle_get_chunk(&store, &us, Some(&putter), B, H1, true);
    assert!(matches!(r, ChunkFetch::Head { size: 2 }));
}

#[test]
fn small_bodies_inline_and_large_bodies_go_external() {
    let us = users();
    let mut store = Store::new();
    let putter = basic("putter", "pw2");
    let getter = basic("getter", "pw1");
    assert_eq!(
        handle_put_chunk(&mut store, &us, Some(&putter), B, H1, vec![5, 6, 7], 4, 1),
        200
    );
    assert_eq!(
        handle_put_chunk(&mut store, &us, Some(&putter), B, H2, vec![0; 4], 4, 1),
        200
    );
    let r = handle_get_chunk(&store, &us, Some(&getter), B, H1, false);
    match r {
        ChunkFetch::Inline { content } => assert_eq!(content, vec![5, 6, 7]),
        _ => panic!("expected an inline row"),
    }
    let r = handle_get_chunk(&store, &us, Some(&getter), B, H2, false);
    assert!(matches!(r, ChunkFetch::External { size: 4 }));
}

#[test]
fn bad_identifiers_give_400() {
    let us = users();
    let mut store = Store::new();
    let putter = basic("putter", "pw2");
    assert_eq!(
        handle_put_chunk(&mut store, &us, Some(&putter), "nothex", H1, vec![1], 128, 1),
        400
    );
    assert_eq!(
        handle_put_chunk(&mut store, &us, Some(&putter), B, "short", vec![1], 128, 1),
        400
    );
    let r = handle_get_chunk(&store, &us, Some(&putter), B, "short", true);
    assert!(matches!(r, ChunkFetch::BadId));
}

#[test]
fn missing_chunks_give_404() {
    let us = users();
    let store = Store::new();
    let putter = basic("putter", "pw2");
    let r = handle_get_chunk(&store, &us, Some(&putter), B, H1, true);
    assert!(matches!(r, ChunkFetch::NotFound));
}

#[test]
fn delete_epoch_strictly_advances() {
    let us = users();
    let mut store = Store::new();
    let putter = basic("putter", "pw2");
    let deleter = basic("deleter", "pw3");
    assert_eq!(handle_get_status(&store, &us, Some(&putter), B).body, "0");
    assert_eq!(
        handle_put_chunk(&mut store, &us, Some(&putter), B, H1, vec![1], 128, 5),
        200
    );
    let st = handle_delete_chunk(&mut store, &us, Some(&deleter), B, H1, 10);
    assert_eq!(st, 200);
    let r = handle_get_status(&store, &us, Some(&putter), B);
    assert_eq!(r.status, 200);
    assert_eq!(r.body, "10");
    // a later delete advances it again, even when nothing matches
    let st = handle_delete_chunk(&mut store, &us, Some(&deleter), B, H1, 22);
    assert_eq!(st, 404);
    assert_eq!(handle_get_status(&store, &us, Some(&putter), B).body, "22");
}

#[test]
fn bulk_delete_removes_present_rows_even_on_404() {
    let us = users();
    let mut store = Store::new();
    let putter = basic("putter", "pw2");
    let deleter = basic("deleter", "pw3");
    for h in [H1, H2] {
        assert_eq!(
            handle_put_chunk(&mut store, &us, Some(&putter), B, h, vec![1], 128, 1),
            200
        );
    }
    // three hashes, one absent: 404, but both present rows are removed and
    // the epoch is bumped
    let body = format!("{}\0{}\0{}", H1, H2, H3);
    let st = handle_delete_chunks(&mut store, &us, Some(&deleter), B, &body, 9);
    assert_eq!(st, 404);
    let r = handle_get_chunk(&store, &us, Some(&putter), B, H1, true);
    assert!(matches!(r, ChunkFetch::NotFound));
    let r = handle_get_chunk(&store, &us, Some(&putter), B, H2, true);
    assert!(matches!(r, ChunkFetch::NotFound));
    assert_eq!(handle_get_status(&store, &us, Some(&putter), B).body, "9");
}

#[test]
fn bulk_delete_validates_every_hash() {
    let us = users();
    let mut store = Store::new();
    let deleter = basic("deleter", "pw3");
    let body = format!("{}\0oops", H1);
    assert_eq!(
        handle_delete_chunks(&mut store, &us, Some(&deleter), B, &body, 9),
        400
    );
    // an empty body splits into one empty piece, which is no hash
    assert_eq!(
        handle_delete_chunks(&mut store, &us, Some(&deleter), B, "", 9),
        400
    );
}

#[test]
fn listing_shows_hash_and_size_per_line() {
    let us = users();
    let mut store = Store::new();
    let putter = basic("putter", "pw2");
    assert_eq!(
        handle_put_chunk(&mut store, &us, Some(&putter), B, H1, vec![0; 5], 128, 1),
        200
    );
    assert_eq!(
        handle_put_chunk(&mut store, &us, Some(&putter), B, H2, vec![0; 7], 128, 2),
        200
    );
    let r = handle_list_chunks(&store, &us, Some(&putter), B, false, &Vec::new());
    assert_eq!(r.status, 200);
    assert_eq!(r.body, format!("{} 5\n{} 7\n", H1, H2));
    let line = Store::chunk_line_validated(H1, 5, -1);
    assert_eq!(line, format!("{} 5 -1\n", H1));
}

#[test]
fn validating_listing_reports_on_disk_sizes() {
    let us = users();
    let mut store = Store::new();
    let putter = basic("putter", "pw2");
    let getter = basic("getter", "pw1");
    // one inline row (below small_size) and one external row
    assert_eq!(
        handle_put_chunk(&mut store, &us, Some(&putter), B, H1, vec![0; 3], 4, 1),
        200
    );
    assert_eq!(
        handle_put_chunk(&mut store, &us, Some(&putter), B, H2, vec![0; 7], 4, 2),
        200
    );
    // only the external row's file is statted by the caller
    let ext = store.external_hashes(B);
    assert_eq!(ext, vec![H2.to_string()]);
    // the external file is missing: its on-disk size reads -1
    let disk = vec![-1i64];
    let body = store.list_chunks_validated(B, &disk);
    assert_eq!(body, format!("{} 3 3\n{} 7 -1\n", H1, H2));
    // the validating form requires Get access and returns the same body
    let r = handle_list_chunks(&store, &us, Some(&getter), B, true, &disk);
    assert_eq!(r.status, 200);
    assert_eq!(r.body, body);
    // and with the file present, its byte count is reported
    let body = store.list_chunks_validated(B, &vec![7i64]);
    assert_eq!(body, format!("{} 3 3\n{} 7 7\n", H1, H2));
}

#[test]
fn roots_are_registered_listed_and_deleted() {
    let us = users();
    let mut store = Store::new();
    let putter = basic("putter", "pw2");
    let getter = basic("getter", "pw1");
    let deleter = basic("deleter", "pw3");
    assert_eq!(
        handle_put_root(&mut store, &us, Some(&putter), B, "hostone", H1, 100),
        200
    );
    assert_eq!(
        handle_put_root(&mut store, &us, Some(&putter), B, "hosttwo", H2, 101),
        200
    );
    let r = handle_get_roots(&store, &us, Some(&getter), B);
    assert_eq!(r.status, 200);
    assert_eq!(
        r.body,
        format!("1\0hostone\0100\0{}\0\02\0hosttwo\0101\0{}", H1, H2)
    );
    // a bad host or body is rejected
    assert_eq!(
        handle_put_root(&mut store, &us, Some(&putter), B, "bad\0host", H1, 102),
        400
    );
    assert_eq!(
        handle_put_root(&mut store, &us, Some(&putter), B, "host", "nothash", 102),
        400
    );
    // delete by id; a second delete of the same id is 404
    assert_eq!(handle_delete_root(&mut store, &us, Some(&deleter), B, "1"), 200);
    assert_eq!(handle_delete_root(&mut store, &us, Some(&deleter), B, "1"), 404);
    assert_eq!(handle_delete_root(&mut store, &us, Some(&deleter), B, "junk"), 404);
    let r = handle_get_roots(&store, &us, Some(&getter), B);
    assert_eq!(r.body, format!("2\0hosttwo\0101\0{}", H2));
}

#[test]
fn router_follows_the_grammar() {
    let segs = |p: &str| -> Vec<String> { p.split('/').map(|s| s.to_string()).collect() };
    assert!(matches!(
        route(Method::Get, &segs("/status/b")),
        Route::GetStatus { .. }
    ));
    assert!(matches!(
        route(Method::Get, &segs("/chunks/b/h")),
        Route::GetChunk { .. }
    ));
    assert!(matches!(
        route(Method::Put, &segs("/chunks/b/h")),
        Route::PutChunk { .. }
    ));
    assert!(matches!(
        route(Method::Head, &segs("/chunks/b/h")),
        Route::HeadChunk { .. }
    ));
    assert!(matches!(
        route(Method::Delete, &segs("/chunks/b/h")),
        Route::DeleteChunk { .. }
    ));
    assert!(matches!(
        route(Method::Delete, &segs("/chunks/b")),
        Route::DeleteChunks { .. }
    ));
    assert!(matches!(
        route(Method::Get, &segs("/chunks/b")),
        Route::ListChunks { .. }
    ));
    assert!(matches!(
        route(Method::Get, &segs("/roots/b")),
        Route::GetRoots { .. }
    ));
    assert!(matches!(
        route(Method::Put, &segs("/roots/b/host")),
        Route::PutRoot { .. }
    ));
    assert!(matches!(
        route(Method::Delete, &segs("/roots/b/1")),
        Route::DeleteRoot { .. }
    ));
    assert!(matches!(route(Method::Put, &segs("/status/b")), Route::NotFound));
    assert!(matches!(route(Method::Get, &segs("/other/b")), Route::NotFound));
    assert!(matches!(route(Method::Get, &segs("/status")), Route::NotFound));
    if let Route::GetStatus { bucket } = route(Method::Get, &segs("/status/mybucket")) {
        assert_eq!(bucket, "mybucket");
    } else {
        panic!("expected the status route");
    }
}

#[test]
fn probe_decisions_follow_the_protocol() {
    // a valid cache row answers without the network
    assert_eq!(probe_step(true, Some(1)), ProbeStep::UseCache);
    // an 8 KiB chunk skips the HEAD; a 32 KiB chunk probes
    assert_eq!(probe_step(false, Some(8 * 1024)), ProbeStep::AssumeAbsent);
    assert_eq!(probe_step(false, Some(32 * 1024)), ProbeStep::Probe);
    // without a size there is nothing to skip on
    assert_eq!(probe_step(false, None), ProbeStep::Probe);
    assert_eq!(probe_result(200).unwrap(), HasChunkResult::Yes);
    assert_eq!(probe_result(404).unwrap(), HasChunkResult::No);
    assert!(matches!(
        probe_result(500),
        Err(mbackup::Error::HttpStatus(500))
    ));
    assert!(put_status_ok(200));
    assert!(put_status_ok(409));
    assert!(!put_status_ok(500));
    assert!(remote_row_valid(11, 10));
    assert!(!remote_row_valid(10, 10));
}

#[test]
fn unchanged_files_are_served_from_the_cache() {
    // every cached chunk still present: no read, no upload
    let probes = vec![HasChunkResult::YesCached, HasChunkResult::Yes];
    assert!(all_chunks_present(&probes));
    assert_eq!(plan_file(false, true, true), FileAction::UseCached);
    assert!(!plan_push(HasChunkResult::Yes).upload);
    assert!(!plan_push(HasChunkResult::YesCached).upload);
    // one missing chunk invalidates the fast path
    let probes = vec![HasChunkResult::Yes, HasChunkResult::No];
    assert!(!all_chunks_present(&probes));
    assert_eq!(plan_file(false, true, false), FileAction::ReadAndPush);
    // recheck forces the full pass
    assert_eq!(plan_file(true, true, true), FileAction::ReadAndPush);
    assert_eq!(plan_file(false, false, true), FileAction::ReadAndPush);
    assert!(plan_push(HasChunkResult::No).upload);
    assert!(plan_push(HasChunkResult::No).refresh_remote);
    assert!(!plan_push(HasChunkResult::YesCached).refresh_remote);
}
