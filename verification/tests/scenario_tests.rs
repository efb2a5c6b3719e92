use std::collections::HashMap;

use mbackup::auth::User;
use mbackup::client::{
    all_chunks_present, join_chunk_list, plan_file, plan_push, probe_result, probe_step,
    remote_row_valid, split_chunk_list, FileAction, HasChunkResult, ProbeStep,
};
use mbackup::dirent::DirEnt;
use mbackup::handlers::{
    handle_delete_chunks, handle_get_chunk, handle_put_chunk, handle_put_root, ChunkFetch,
};
use mbackup::seal::{chunk_hash, seal_chunk_fresh};
use mbackup::serialize::serialize_ents;
use mbackup::store::Store;
use mbackup::{AccessType, EType};

const SEED: [u8; 32] = [1; 32];
const KEY: [u8; 32] = [2; 32];
const SMALL: usize = 128 * 1024;

struct Client {
    store: Store,
    users: Vec<User>,
    header: String,
    bucket: String,
    remote: HashMap<String, i64>,
    files: HashMap<(String, u64, u64), String>,
    last_delete: i64,
    now: i64,
    puts: usize,
    heads: usize,
}

impl Client {
    fn new() -> Client {
        let users = vec![User {
            name: "c".to_string(),
            password: "s".to_string(),
            access_level: AccessType::Delete,
        }];
        let header = format!("Basic {}", base64::encode("c:s"));
        Client {
            store: Store::new(),
            users,
            header,
            bucket: mbackup::ident::hex_encode(&[0x22; 32]),
            remote: HashMap::new(),
            files: HashMap::new(),
            last_delete: 0,
            now: 1,
            puts: 0,
            heads: 0,
        }
    }

    fn begin_run(&mut self, now: i64) {
        self.now = now;
        self.last_delete = self.store.get_status(&self.bucket);
        self.puts = 0;
        self.heads = 0;
    }

    fn has_chunk(&mut self, chunk: &str, size: Option<u64>) -> HasChunkResult {
        let cached = match self.remote.get(chunk) {
            Some(&t) => remote_row_valid(t, self.last_delete),
            None => false,
        };
        match probe_step(cached, size) {
            ProbeStep::UseCache => HasChunkResult::YesCached,
            ProbeStep::AssumeAbsent => HasChunkResult::No,
            ProbeStep::Probe => {
                self.heads += 1;
                let reply = handle_get_chunk(
                    &self.store,
                    &self.users,
                    Some(&self.header),
                    &self.bucket,
                    chunk,
                    true,
                );
                let status = match reply {
                    ChunkFetch::Head { .. } => 200,
                    ChunkFetch::NotFound => 404,
                    _ => 500,
                };
                probe_result(status).unwrap()
            },
        }
    }

    fn push_chunk(&mut self, content: &[u8]) -> String {
        let hash = chunk_hash(&SEED, content);
        let hc = self.has_chunk(&hash, Some(content.len() as u64));
        let plan = plan_push(hc);
        if plan.upload {
            self.puts += 1;
            let sealed = seal_chunk_fresh(content, &KEY);
            let status = handle_put_chunk(
                &mut self.store,
                &self.users,
                Some(&self.header),
                &self.bucket,
                &hash,
                sealed,
                SMALL,
                self.now,
            );
            assert!(status == 200 || status == 409);
        }
        if plan.refresh_remote {
            self.remote.insert(hash.clone(), self.now);
        }
        hash
    }

    /// Back up one file whose body is already split into chunk windows.
    fn backup_file(&mut self, path: &str, windows: &[&[u8]], size: u64, mtime: u64) -> String {
        let key = (path.to_string(), size, mtime);
        if let Some(chunks) = self.files.get(&key).cloned() {
            let mut probes: Vec<HasChunkResult> = Vec::new();
            for chunk in split_chunk_list(&chunks) {
                probes.push(self.has_chunk(&chunk, None));
            }
            let ok = all_chunks_present(&probes);
            if plan_file(false, true, ok) == FileAction::UseCached {
                return chunks;
            }
        }
        let mut hashes: Vec<String> = Vec::new();
        for w in windows {
            hashes.push(self.push_chunk(w));
        }
        let chunks = join_chunk_list(&hashes);
        self.files.insert(key, chunks.clone());
        chunks
    }

    fn backup_tree(&mut self, content: String, size: u64) -> String {
        let entries = vec![DirEnt {
            name: "hello.txt".to_string(),
            etype: EType::File,
            content,
            size,
            mode: 420,
            uid: 0,
            gid: 0,
            mtime: 1700000000,
            atime: 1700000000,
            ctime: 1700000000,
        }];
        let dir_hash = self.push_chunk(serialize_ents(&entries).as_bytes());
        let roots = vec![DirEnt {
            name: "/root".to_string(),
            etype: EType::Dir,
            content: dir_hash,
            size: 1,
            mode: 493,
            uid: 0,
            gid: 0,
            mtime: 0,
            atime: 0,
            ctime: 0,
        }];
        let root_hash = self.push_chunk(serialize_ents(&roots).as_bytes());
        let status = handle_put_root(
            &mut self.store,
            &self.users,
            Some(&self.header),
            &self.bucket,
            "host",
            &root_hash,
            self.now,
        );
        assert_eq!(status, 200);
        root_hash
    }
}

#[test]
fn stored_chunks_round_trip_byte_for_byte() {
    let mut c = Client::new();
    c.begin_run(1);
    let plain: Vec<u8> = (0..100u8).collect();
    let hash = mbackup::seal::chunk_hash(&SEED, &plain);
    let sealed = mbackup::seal::seal_chunk(&plain, &KEY, &[9; 12]);
    let status = handle_put_chunk(
        &mut c.store,
        &c.users,
        Some(&c.header),
        &c.bucket,
        &hash,
        sealed,
        SMALL,
        1,
    );
    assert_eq!(status, 200);
    let fetched = handle_get_chunk(&c.store, &c.users, Some(&c.header), &c.bucket, &hash, false);
    match fetched {
        ChunkFetch::Inline { content } => {
            assert_eq!(&content[..12], &[9; 12]);
            let opened = mbackup::seal::open_chunk(&content, &KEY);
            assert_eq!(opened, plain);
        },
        _ => panic!("expected the stored bytes inline"),
    }
}

#[test]
fn single_small_file_uploads_three_chunks_once() {
    let mut c = Client::new();

    // first run: the file-body chunk, the directory chunk and the root
    // chunk are uploaded
    c.begin_run(1);
    let chunks = c.backup_file("/root/hello.txt", &[b"hi"], 2, 1700000000);
    let root1 = c.backup_tree(chunks.clone(), 2);
    assert_eq!(c.puts, 3);
    assert_eq!(c.store.chunks.len(), 3);

    // second run over the unchanged tree: zero chunk uploads, answered from
    // the cache without a single HEAD
    c.begin_run(2);
    let chunks2 = c.backup_file("/root/hello.txt", &[b"hi"], 2, 1700000000);
    assert_eq!(chunks2, chunks);
    let root2 = c.backup_tree(chunks2, 2);
    assert_eq!(c.puts, 0);
    assert_eq!(c.heads, 0);
    assert_eq!(c.store.chunks.len(), 3);

    // the snapshot root hash is reproducible
    assert_eq!(root1, root2);
}

#[test]
fn deleting_one_chunk_invalidates_the_cache_and_reuploads_it() {
    let mut c = Client::new();

    // two windows, both large enough that a probe beats a re-upload
    let w1 = vec![7u8; 20000];
    let w2 = vec![8u8; 20000];
    c.begin_run(1);
    let chunks = c.backup_file("/root/big", &[&w1, &w2], 40000, 5);
    assert_eq!(c.puts, 2);
    let parts = split_chunk_list(&chunks);
    let h1 = parts[0].clone();

    // the server deletes the first chunk, advancing the delete epoch
    let deleter = c.header.clone();
    let st = handle_delete_chunks(&mut c.store, &c.users, Some(&deleter), &c.bucket, &h1, 3);
    assert_eq!(st, 200);
    assert_eq!(c.store.get_status(&c.bucket), 3);

    // the next run sees the fresh epoch, distrusts its cache, probes the
    // cached list (two HEADs), finds the first chunk missing, re-reads the
    // file (two more HEADs from the uploader), and re-uploads exactly the
    // missing chunk
    c.begin_run(4);
    let chunks2 = c.backup_file("/root/big", &[&w1, &w2], 40000, 5);
    assert_eq!(chunks2, chunks);
    assert_eq!(c.heads, 4);
    assert_eq!(c.puts, 1);
    let r = handle_get_chunk(&c.store, &c.users, Some(&c.header), &c.bucket, &h1, true);
    assert!(matches!(r, ChunkFetch::Head { .. }));
}
