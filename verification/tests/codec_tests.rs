use mbackup::client::{empty_content, join_chunk_list, scan_placeholder, split_chunk_list};
use mbackup::dirent::{bytes_ents, render_record, DirEnt};
use mbackup::ident::{check_hash, chunk_path, hex_encode, str_eq};
use mbackup::numfmt::{i64_to_string, parse_decimal, u64_to_string};
use mbackup::seal::{chunk_hash, open_chunk, seal_chunk};
use mbackup::serialize::{serialize_ents, str_lex_le};
use mbackup::EType;

fn ent(name: &str, etype: EType, content: &str, size: u64) -> DirEnt {
    DirEnt {
        name: name.to_string(),
        etype,
        content: content.to_string(),
        size,
        mode: 420,
        uid: 1000,
        gid: 1000,
        mtime: 5,
        atime: 6,
        ctime: 7,
    }
}

#[test]
fn hash_is_blake2b_of_seed_and_plaintext() {
    // BLAKE2b-256 of the empty string, hex
    let h = chunk_hash(&[], &[]);
    assert_eq!(
        h,
        "0e5751c026e543b2e8ab2eb06099daa1d1e5df47778f7787faab45cdf12fe3a8"
    );
    // the seed is prepended: hash(seed, rest) == hash([], seed || rest)
    let a = chunk_hash(b"ab", b"c");
    let b = chunk_hash(&[], b"abc");
    assert_eq!(a, b);
    assert_eq!(
        b,
        "bddd813c634239723171ef3fee98579b94964e3bb1cb3e427262c8c068d52319"
    );
}

#[test]
fn hash_is_deterministic() {
    let seed = [7u8; 32];
    let h1 = chunk_hash(&seed, b"payload");
    let h2 = chunk_hash(&seed, b"payload");
    assert_eq!(h1, h2);
    assert_eq!(h1.len(), 64);
    assert!(check_hash(&h1).is_ok());
}

#[test]
fn sealed_chunk_is_nonce_then_ciphertext() {
    let key = [0u8; 32];
    let nonce = [0u8; 12];
    let plain = [0u8; 4];
    let sealed = seal_chunk(&plain, &key, &nonce);
    assert_eq!(sealed.len(), plain.len() + 12);
    assert_eq!(&sealed[..12], &nonce);
    // zero plaintext under the zero key and nonce shows the raw keystream
    assert_eq!(&sealed[12..], &[0x76, 0xb8, 0xe0, 0xad]);
}

#[test]
fn seal_then_open_round_trips() {
    let key = [3u8; 32];
    let nonce = [9u8; 12];
    let plain: Vec<u8> = (0..=255u8).collect();
    let sealed = seal_chunk(&plain, &key, &nonce);
    assert_eq!(sealed.len(), plain.len() + 12);
    assert_eq!(&sealed[..12], &nonce);
    assert_ne!(&sealed[12..], &plain[..]);
    let opened = open_chunk(&sealed, &key);
    assert_eq!(opened, plain);
}

#[test]
fn serialization_is_order_independent() {
    let forward = vec![
        ent("alpha", EType::File, "empty", 0),
        ent("beta", EType::Dir, "00", 2),
        ent("gamma", EType::Link, "target", 0),
    ];
    let backward = vec![
        ent("gamma", EType::Link, "target", 0),
        ent("alpha", EType::File, "empty", 0),
        ent("beta", EType::Dir, "00", 2),
    ];
    assert_eq!(serialize_ents(&forward), serialize_ents(&backward));
}

#[test]
fn serialization_matches_record_format() {
    let entries = vec![ent("b", EType::Dir, "cc", 9), ent("a", EType::File, "empty", 0)];
    let expected = "a\0File\0empty\00\0420\01000\01000\05\06\07\0\0b\0Dir\0cc\09\0420\01000\01000\05\06\07";
    assert_eq!(serialize_ents(&entries), expected);
}

#[test]
fn record_renders_fields_in_order() {
    let r = render_record(&ent("x", EType::Link, "t", 3));
    assert_eq!(r, "x\0Link\0t\03\0420\01000\01000\05\06\07");
}

#[test]
fn directory_hash_is_pure_function_of_entries() {
    let seed = [1u8; 32];
    let one = vec![ent("a", EType::File, "empty", 0), ent("b", EType::File, "empty", 0)];
    let two = vec![ent("b", EType::File, "empty", 0), ent("a", EType::File, "empty", 0)];
    let h1 = chunk_hash(&seed, serialize_ents(&one).as_bytes());
    let h2 = chunk_hash(&seed, serialize_ents(&two).as_bytes());
    assert_eq!(h1, h2);
}

#[test]
fn estimate_counts_names_and_contents() {
    let entries = vec![ent("ab", EType::File, "empty", 0), ent("c", EType::File, "xy", 2)];
    // 2 + 25 + 5, plus separator 1, plus 1 + 25 + 2
    assert_eq!(bytes_ents(entries), 32 + 1 + 28);
    assert_eq!(bytes_ents(Vec::new()), 0);
}

#[test]
fn check_hash_accepts_exactly_64_lowercase_hex() {
    let good = "0123456789abcdef0123456789abcdef0123456789abcdef0123456789abcdef";
    assert!(check_hash(good).is_ok());
    assert!(matches!(check_hash(""), Err(mbackup::Error::Server(_))));
    assert!(check_hash(&good[..63]).is_err());
    let upper = good.to_uppercase();
    assert!(check_hash(&upper).is_err());
    let bad = format!("{}g", &good[..63]);
    assert!(check_hash(&bad).is_err());
}

#[test]
fn chunk_path_fans_out_on_hash_prefix() {
    let p = chunk_path("/srv", "bucket", "aabbcc");
    assert_eq!(p, "/srv/data/bucket/aa/bbcc");
}

#[test]
fn hex_encode_is_two_lowercase_digits_per_byte() {
    assert_eq!(hex_encode(&[0xab, 0x01, 0xff]), "ab01ff");
    assert_eq!(hex_encode(&[]), "");
}

#[test]
fn decimal_formatting_and_parsing_agree() {
    assert_eq!(u64_to_string(0), "0");
    assert_eq!(u64_to_string(1700000000), "1700000000");
    assert_eq!(u64_to_string(u64::MAX), "18446744073709551615");
    assert_eq!(i64_to_string(-5), "-5");
    assert_eq!(i64_to_string(i64::MIN), "-9223372036854775808");
    assert_eq!(parse_decimal("0").unwrap(), 0);
    assert_eq!(parse_decimal("1700000000").unwrap(), 1700000000);
    assert_eq!(parse_decimal("007").unwrap(), 7);
    assert!(matches!(parse_decimal(""), Err(mbackup::Error::Msg(_))));
    assert!(parse_decimal("12a").is_err());
    assert!(parse_decimal("-3").is_err());
    assert!(parse_decimal("9223372036854775808").is_err());
    assert_eq!(parse_decimal("9223372036854775807").unwrap(), i64::MAX);
}

#[test]
fn chunk_lists_join_and_split() {
    let hashes = vec!["aa".to_string(), "bb".to_string(), "cc".to_string()];
    let joined = join_chunk_list(&hashes);
    assert_eq!(joined, "aa,bb,cc");
    let back = split_chunk_list(&joined);
    assert_eq!(back, hashes);
    assert_eq!(split_chunk_list(""), vec!["".to_string()]);
    assert_eq!(split_chunk_list("solo"), vec!["solo".to_string()]);
}

#[test]
fn placeholder_sizes_match_chunk_counts() {
    // one chunk: a 64-character hash
    assert_eq!(scan_placeholder(1).len(), 64);
    assert_eq!(scan_placeholder(64 * 1024 * 1024).len(), 64);
    // two chunks: two hashes and a comma
    assert_eq!(scan_placeholder(64 * 1024 * 1024 + 1).len(), 129);
    assert!(scan_placeholder(2).chars().all(|c| c == '_'));
}

#[test]
fn empty_files_use_the_sentinel() {
    assert_eq!(empty_content(), "empty");
}

#[test]
fn lexicographic_compare_orders_strings() {
    assert!(str_lex_le("", "a"));
    assert!(str_lex_le("a", "a"));
    assert!(str_lex_le("a", "ab"));
    assert!(!str_lex_le("ab", "a"));
    assert!(str_lex_le("abc", "abd"));
    assert!(!str_lex_le("b", "ab"));
    assert!(str_eq("same", "same"));
    assert!(!str_eq("same", "sama"));
}
