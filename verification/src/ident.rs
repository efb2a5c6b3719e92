//! Identifier validation and on-disk path layout.
//!
//! Buckets and chunk hashes travel on the wire as exactly 64 lowercase hex
//! characters; every handler validates them before touching the database or
//! the filesystem.

use vstd::prelude::*;

use crate::Error;

verus! {

/// A character is a lowercase hexadecimal digit.
pub open spec fn is_hex_char(c: char) -> bool {
    ('0' <= c && c <= '9') || ('a' <= c && c <= 'f')
}

/// A string is a valid rendering of a 256-bit identifier:
/// exactly 64 lowercase hex characters.
pub open spec fn is_hash_str(s: Seq<char>) -> bool {
    s.len() == 64 && forall|i: int| 0 <= i < s.len() ==> is_hex_char(#[trigger] s[i])
}

/// The lowercase hex digit for a value below 16.
pub open spec fn hex_digit(v: u8) -> char
    recommends
        v < 16,
{
    if v < 10 {
        (('0' as u8) + v) as char
    } else {
        (('a' as u8) + (v - 10)) as char
    }
}

/// The lowercase hex rendering of a byte string: two digits per byte,
/// high nibble first.
pub open spec fn hex_of(data: Seq<u8>) -> Seq<char> {
    Seq::new(
        data.len() * 2,
        |i: int|
            if i % 2 == 0 {
                hex_digit(data[i / 2] / 16)
            } else {
                hex_digit(data[i / 2] % 16)
            },
    )
}

/// Relies on hex::encode: each input byte becomes two lowercase hex digits,
/// high nibble first.
#[verifier::external_body]
pub fn hex_encode(data: &[u8]) -> (r: String)
    ensures
        r@ == hex_of(data@),
{
    hex::encode(data)
}

/// Validate that a string is a valid hex encoding of a 256-bit hash. The
/// wrong length and a bad character each carry their own diagnostic.
pub fn check_hash(name: &str) -> (r: Result<(), Error>)
    ensures
        r is Ok <==> is_hash_str(name@),
        name@.len() != 64 ==> (r matches Err(e) && e matches Error::Server(m) && m@
            == "wrong hash length"@),
        name@.len() == 64 && !is_hash_str(name@) ==> (r matches Err(e) && e matches Error::Server(m)
            && m@ == "hash character not lowercase hex"@),
{
    let len = name.unicode_len();
    if len != 64 {
        return Err(Error::Server("wrong hash length"));
    }
    let mut i: usize = 0;
    while i < 64
        invariant
            0 <= i <= 64,
            name@.len() == 64,
            forall|j: int| 0 <= j < i ==> is_hex_char(#[trigger] name@[j]),
        decreases 64 - i,
    {
        let c = name.get_char(i);
        if !(('0' <= c && c <= '9') || ('a' <= c && c <= 'f')) {
            return Err(Error::Server("hash character not lowercase hex"));
        }
        i += 1;
    }
    Ok(())
}

/// Compare two strings for equality, character by character.
pub fn str_eq(a: &str, b: &str) -> (r: bool)
    ensures
        r == (a@ == b@),
{
    let alen = a.unicode_len();
    let blen = b.unicode_len();
    if alen != blen {
        return false;
    }
    let mut i: usize = 0;
    while i < alen
        invariant
            0 <= i <= alen,
            alen == a@.len(),
            alen == b@.len(),
            forall|j: int| 0 <= j < i ==> a@[j] == b@[j],
        decreases alen - i,
    {
        if a.get_char(i) != b.get_char(i) {
            return false;
        }
        i += 1;
    }
    proof {
        assert(a@ =~= b@);
    }
    true
}

/// The path of a committed external chunk:
/// `{data_dir}/data/{bucket}/{hash[0..2]}/{hash[2..]}`.
pub open spec fn spec_chunk_path(data_dir: Seq<char>, bucket: Seq<char>, chunk: Seq<char>) -> Seq<
    char,
> {
    data_dir + "/data/"@ + bucket + "/"@ + chunk.subrange(0, 2) + "/"@ + chunk.subrange(
        2,
        chunk.len() as int,
    )
}

/// Build the on-disk path of a committed external chunk. The first two hex
/// characters of the hash name a fan-out directory; the rest is the file name.
pub fn chunk_path(data_dir: &str, bucket: &str, chunk: &str) -> (r: String)
    requires
        chunk@.len() >= 2,
    ensures
        r@ == spec_chunk_path(data_dir@, bucket@, chunk@),
{
    let chunk_len = chunk.unicode_len();
    let mut r = String::new();
    r.append(data_dir);
    r.append("/data/");
    r.append(bucket);
    r.append("/");
    r.append(chunk.substring_char(0, 2));
    r.append("/");
    r.append(chunk.substring_char(2, chunk_len));
    r
}

} // verus!
