//! Content addressing and chunk sealing.
//!
//! A chunk is addressed by a keyed hash of its plaintext: BLAKE2b-256 over
//! `seed || plaintext`, rendered as 64 lowercase hex characters. Its stored
//! form is `nonce(12) || ciphertext`, where the ciphertext is the plaintext
//! XORed with the ChaCha20 keystream for the bucket key and that nonce.

use vstd::prelude::*;
use vstd::slice::slice_subrange;

use crypto::digest::Digest;
use crypto::symmetriccipher::SynchronousStreamCipher;
use rand::RngCore;

use crate::ident::is_hash_str;

verus! {

/// The lowercase hex rendering of the BLAKE2b-256 digest of a byte string.
/// The digest depends on the input bytes alone.
pub uninterp spec fn blake2b256_hex(data: Seq<u8>) -> Seq<char>;

/// The ChaCha20 keystream byte at position `i` for a 32-byte key and a
/// 12-byte nonce. It depends on the key, the nonce and the position alone.
pub uninterp spec fn chacha20_keystream(key: Seq<u8>, nonce: Seq<u8>, i: int) -> u8;

/// Relies on crypto::blake2b::Blake2b (through crypto::digest::Digest):
/// feeding `seed` then `content` digests their concatenation, and
/// `result_str` renders the 32-byte digest as 64 lowercase hex characters.
#[verifier::external_body]
pub fn chunk_hash(seed: &[u8], content: &[u8]) -> (r: String)
    ensures
        r@ == blake2b256_hex(seed@ + content@),
        is_hash_str(r@),
{
    let mut hasher = crypto::blake2b::Blake2b::new(256 / 8);
    hasher.input(seed);
    hasher.input(content);
    hasher.result_str()
}

/// The longest input the stream cipher accepts: its 32-bit block counter
/// yields 2^32 - 1 blocks of 64 bytes before it is exhausted.
pub const CIPHER_MAX_LEN: u64 = 274877906880;

/// Relies on crypto::chacha20::ChaCha20: `process` XORs the input with the
/// keystream expanded from the key and nonce, position by position.
/// `ChaCha20::new` accepts exactly a 16- or 32-byte key and an 8- or 12-byte
/// nonce; the bucket key and chunk nonces here are 32 and 12 bytes. The
/// cipher panics once its 32-bit block counter is exhausted, so inputs stay
/// under 2^32 - 1 blocks.
#[verifier::external_body]
fn chacha20_xor(key: &[u8], nonce: &[u8], data: &[u8]) -> (r: Vec<u8>)
    requires
        key@.len() == 32,
        nonce@.len() == 12,
        data@.len() <= CIPHER_MAX_LEN,
    ensures
        r@.len() == data@.len(),
        forall|i: int|
            0 <= i < data@.len() ==> r@[i] == (data@[i] ^ chacha20_keystream(
                key@,
                nonce@,
                i,
            )),
{
    let mut out: Vec<u8> = Vec::new();
    out.resize(data.len(), 0);
    crypto::chacha20::ChaCha20::new(key, nonce).process(data, &mut out);
    out
}

/// Relies on rand::rngs::OsRng: fills the buffer with bytes from the
/// operating system's random number generator. Nothing is promised of the
/// values; callers must not assume two draws agree.
#[verifier::external_body]
pub fn random_nonce() -> (r: Vec<u8>)
    ensures
        r@.len() == 12,
{
    let mut buf = [0u8; 12];
    rand::rngs::OsRng.fill_bytes(&mut buf);
    buf.to_vec()
}

/// The stored form of a chunk: the nonce followed by the plaintext XORed
/// with the ChaCha20 keystream for (key, nonce).
pub open spec fn sealed_spec(plain: Seq<u8>, key: Seq<u8>, nonce: Seq<u8>) -> Seq<u8> {
    nonce + Seq::new(plain.len(), |i: int| plain[i] ^ chacha20_keystream(key, nonce, i))
}

/// The plaintext recovered from a stored chunk: the bytes past the 12-byte
/// nonce, XORed with the keystream for the nonce the object carries.
pub open spec fn opened_spec(stored: Seq<u8>, key: Seq<u8>) -> Seq<u8> {
    Seq::new(
        (stored.len() - 12) as nat,
        |i: int| stored[12 + i] ^ chacha20_keystream(key, stored.subrange(0, 12), i),
    )
}

/// Seal a plaintext chunk under the bucket key with the given nonce.
pub fn seal_chunk(plain: &[u8], key: &[u8], nonce: &[u8]) -> (r: Vec<u8>)
    requires
        key@.len() == 32,
        nonce@.len() == 12,
        plain@.len() + 12 <= usize::MAX,
        plain@.len() <= CIPHER_MAX_LEN,
    ensures
        r@ == sealed_spec(plain@, key@, nonce@),
        r@.len() == plain@.len() + 12,
        r@.subrange(0, 12) == nonce@,
{
    let mut out: Vec<u8> = Vec::new();
    let mut i: usize = 0;
    while i < 12
        invariant
            0 <= i <= 12,
            nonce@.len() == 12,
            out@ =~= nonce@.subrange(0, i as int),
        decreases 12 - i,
    {
        out.push(nonce[i]);
        i += 1;
    }
    proof {
        assert(out@ =~= nonce@);
    }
    let mut cipher = chacha20_xor(key, nonce, plain);
    out.append(&mut cipher);
    proof {
        assert(out@ =~= sealed_spec(plain@, key@, nonce@));
        assert(out@.subrange(0, 12) =~= nonce@);
    }
    out
}

/// Seal a plaintext chunk with a nonce drawn fresh from the system RNG.
/// The nonce used stands in the first 12 bytes of the result.
pub fn seal_chunk_fresh(plain: &[u8], key: &[u8]) -> (r: Vec<u8>)
    requires
        key@.len() == 32,
        plain@.len() + 12 <= usize::MAX,
        plain@.len() <= CIPHER_MAX_LEN,
    ensures
        r@.len() == plain@.len() + 12,
        r@ == sealed_spec(plain@, key@, r@.subrange(0, 12)),
{
    let nonce = random_nonce();
    let r = seal_chunk(plain, key, nonce.as_slice());
    proof {
        assert(r@.subrange(0, 12) =~= nonce@);
    }
    r
}

/// Recover the plaintext of a stored chunk using the nonce it carries.
pub fn open_chunk(stored: &[u8], key: &[u8]) -> (r: Vec<u8>)
    requires
        key@.len() == 32,
        stored@.len() >= 12,
        stored@.len() - 12 <= CIPHER_MAX_LEN,
    ensures
        r@ == opened_spec(stored@, key@),
{
    let nonce = slice_subrange(stored, 0, 12);
    let body = slice_subrange(stored, 12, stored.len());
    let out = chacha20_xor(key, nonce, body);
    proof {
        assert(out@ =~= opened_spec(stored@, key@));
    }
    out
}

/// Deterministic addressing: the chunk hash is a function of the bucket seed
/// and the plaintext alone — never of the upload order, the encryption
/// nonce, or any client state.
pub proof fn lemma_deterministic_addressing(
    seed1: Seq<u8>,
    plain1: Seq<u8>,
    seed2: Seq<u8>,
    plain2: Seq<u8>,
)
    requires
        seed1 == seed2,
        plain1 == plain2,
    ensures
        blake2b256_hex(seed1 + plain1) == blake2b256_hex(seed2 + plain2),
{
}

/// Ciphertext integrity: for a plaintext of length `n`, the stored object
/// has length `n + 12` and its first 12 bytes are exactly the nonce.
pub proof fn lemma_ciphertext_integrity(plain: Seq<u8>, key: Seq<u8>, nonce: Seq<u8>)
    requires
        nonce.len() == 12,
    ensures
        sealed_spec(plain, key, nonce).len() == plain.len() + 12,
        sealed_spec(plain, key, nonce).subrange(0, 12) =~= nonce,
{
}

/// Round trip: opening a sealed chunk with the same key recovers the
/// plaintext byte for byte.
pub proof fn lemma_seal_round_trip(plain: Seq<u8>, key: Seq<u8>, nonce: Seq<u8>)
    requires
        nonce.len() == 12,
    ensures
        opened_spec(sealed_spec(plain, key, nonce), key) =~= plain,
{
    let stored = sealed_spec(plain, key, nonce);
    assert(stored.subrange(0, 12) =~= nonce);
    assert forall|i: int| 0 <= i < plain.len() implies opened_spec(stored, key)[i] == plain[i] by {
        let p = plain[i];
        let k = chacha20_keystream(key, nonce, i);
        assert(stored[12 + i] == (p ^ k));
        assert(((p ^ k) ^ k) == p) by (bit_vector);
    }
}

} // verus!
