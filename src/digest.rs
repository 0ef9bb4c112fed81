//! Hash digests used for addressing and content indexing, and the integers
//! read from their leading bytes.
use vstd::prelude::*;
use vstd::utf8::encode_utf8;

verus! {

/// The SHA-256 digest of a byte string.
pub uninterp spec fn sha256_of(b: Seq<u8>) -> Seq<u8>;

/// The 64-bit XXH3 hash of a byte string.
pub uninterp spec fn xxh3_of(b: Seq<u8>) -> u64;

/// Relies on `sha2::Sha256::digest`: the SHA-256 digest of `b`, 32 bytes long.
#[verifier::external_body]
fn sha256(b: &[u8]) -> (r: Vec<u8>)
    ensures
        r@ == sha256_of(b@),
        r@.len() == 32,
{
    <sha2::Sha256 as sha2::Digest>::digest(b).to_vec()
}

/// Relies on `xxhash_rust::xxh3::xxh3_64`: the 64-bit XXH3 hash of `b`.
#[verifier::external_body]
fn xxh3(b: &[u8]) -> (r: u64)
    ensures
        r == xxh3_of(b@),
{
    xxhash_rust::xxh3::xxh3_64(b)
}

pub open spec fn pow256(n: nat) -> nat
    decreases n,
{
    if n == 0 { 1 } else { 256 * pow256((n - 1) as nat) }
}

/// Little-endian value of a byte string (first byte least significant).
pub open spec fn le_value(s: Seq<u8>) -> nat
    decreases s.len(),
{
    if s.len() == 0 { 0 } else { s[0] as nat + 256 * le_value(s.drop_first()) }
}

/// Big-endian value of a byte string (first byte most significant).
pub open spec fn be_value(s: Seq<u8>) -> nat
    decreases s.len(),
{
    if s.len() == 0 { 0 } else { be_value(s.drop_last()) * 256 + s.last() as nat }
}

/// A 64-bit pattern read as a two's-complement signed integer.
pub open spec fn signed64(v: nat) -> int {
    if v >= 0x8000_0000_0000_0000 { v - 0x1_0000_0000_0000_0000 } else { v as int }
}

/// Absolute value in 64-bit arithmetic, where the most negative value maps to itself.
pub open spec fn wrapping_abs64(v: int) -> int {
    if v == i64::MIN as int { v } else if v < 0 { -v } else { v }
}

/// The account identifier of a name: the first 16 bytes of the SHA-256 digest of
/// its UTF-8 bytes, read little-endian.
pub open spec fn account_id_of(name: Seq<char>) -> nat {
    le_value(sha256_of(encode_utf8(name)).subrange(0, 16))
}

/// The content hash of a text: the first 8 digest bytes, read big-endian as a
/// signed integer.
pub open spec fn content_hash_of(text: Seq<char>) -> int {
    signed64(be_value(sha256_of(encode_utf8(text)).subrange(0, 8)))
}

/// The blob key of an account name: the XXH3 hash of its UTF-8 bytes.
pub open spec fn blob_key_of(account: Seq<char>) -> u128 {
    xxh3_of(encode_utf8(account)) as u128
}

proof fn lemma_le_bound(s: Seq<u8>)
    ensures
        le_value(s) < pow256(s.len()),
    decreases s.len(),
{
    if s.len() > 0 {
        lemma_le_bound(s.drop_first());
        let v = le_value(s.drop_first());
        let p = pow256((s.len() - 1) as nat);
        assert((s[0] as nat) + 256 * v < 256 * p) by (nonlinear_arith)
            requires v < p, s[0] < 256;
    }
}

proof fn lemma_be_bound(s: Seq<u8>)
    ensures
        be_value(s) < pow256(s.len()),
    decreases s.len(),
{
    if s.len() > 0 {
        lemma_be_bound(s.drop_last());
        let v = be_value(s.drop_last());
        let p = pow256((s.len() - 1) as nat);
        assert(v * 256 + (s.last() as nat) < 256 * p) by (nonlinear_arith)
            requires v < p, s.last() < 256;
    }
}

/// Reads `d[0..16]` as a little-endian 128-bit integer.
fn read_le128(d: &Vec<u8>) -> (r: u128)
    requires
        d@.len() >= 16,
    ensures
        r as nat == le_value(d@.subrange(0, 16)),
{
    let mut acc: u128 = 0;
    let mut i: usize = 16;
    proof {
        assert(d@.subrange(16, 16) =~= Seq::<u8>::empty());
    }
    while i > 0
        invariant
            i <= 16,
            d@.len() >= 16,
            acc as nat == le_value(d@.subrange(i as int, 16)),
        decreases i,
    {
        proof {
            let s = d@.subrange(i - 1, 16);
            assert(s.drop_first() =~= d@.subrange(i as int, 16));
            lemma_le_bound(d@.subrange(i as int, 16));
            reveal_with_fuel(pow256, 17);
            assert(pow256(16) == 0x1_0000_0000_0000_0000_0000_0000_0000_0000);
            lemma_pow256_mono((16 - i) as nat, 15);
            let v = acc as nat;
            let p = pow256((16 - i) as nat);
            assert(v * 256 + 255 < 0x1_0000_0000_0000_0000_0000_0000_0000_0000) by (nonlinear_arith)
                requires v < p, p <= pow256(15), pow256(16) == 256 * pow256(15),
                    pow256(16) == 0x1_0000_0000_0000_0000_0000_0000_0000_0000;
        }
        acc = acc * 256 + d[i - 1] as u128;
        i = i - 1;
    }
    acc
}

proof fn lemma_pow256_mono(a: nat, b: nat)
    requires
        a <= b,
    ensures
        pow256(a) <= pow256(b),
    decreases b,
{
    if a < b {
        lemma_pow256_mono(a, (b - 1) as nat);
    }
}

/// Reads `d[0..8]` as a big-endian 64-bit pattern.
fn read_be64(d: &Vec<u8>) -> (r: u64)
    requires
        d@.len() >= 8,
    ensures
        r as nat == be_value(d@.subrange(0, 8)),
{
    let mut acc: u64 = 0;
    let mut i: usize = 0;
    proof {
        assert(d@.subrange(0, 0) =~= Seq::<u8>::empty());
    }
    while i < 8
        invariant
            i <= 8,
            d@.len() >= 8,
            acc as nat == be_value(d@.subrange(0, i as int)),
        decreases 8 - i,
    {
        proof {
            assert(d@.subrange(0, i + 1).drop_last() =~= d@.subrange(0, i as int));
            lemma_be_bound(d@.subrange(0, i as int));
            reveal_with_fuel(pow256, 9);
            assert(pow256(8) == 0x1_0000_0000_0000_0000);
            lemma_pow256_mono(i as nat, 7);
            let v = acc as nat;
            let p = pow256(i as nat);
            assert(v * 256 + 255 < 0x1_0000_0000_0000_0000) by (nonlinear_arith)
                requires v < p, p <= pow256(7), pow256(8) == 256 * pow256(7),
                    pow256(8) == 0x1_0000_0000_0000_0000;
        }
        acc = acc * 256 + d[i] as u64;
        i = i + 1;
    }
    acc
}

/// The 32-bit hash of a name: the first 4 digest bytes, read little-endian.
pub open spec fn hash32_of(s: Seq<char>) -> nat {
    le_value(sha256_of(encode_utf8(s)).subrange(0, 4))
}

/// The 32-bit hash of a string (see [`hash32_of`]).
pub fn hash_string_32(input: &str) -> (r: u32)
    ensures
        r as nat == hash32_of(input@),
{
    let d = sha256(input.as_bytes());
    let ghost b = d@.subrange(0, 4);
    proof {
        reveal_with_fuel(le_value, 5);
        assert(b.drop_first() =~= d@.subrange(1, 4));
        assert(b.drop_first().drop_first() =~= d@.subrange(2, 4));
        assert(b.drop_first().drop_first().drop_first() =~= d@.subrange(3, 4));
        assert(b.drop_first().drop_first().drop_first().drop_first() =~= Seq::<u8>::empty());
    }
    d[0] as u32 + 256 * d[1] as u32 + 65536 * d[2] as u32 + 16777216 * d[3] as u32
}

/// Derives the 128-bit ledger identifier of an account name.
pub fn derive_id(name: &str) -> (r: u128)
    ensures
        r as nat == account_id_of(name@),
{
    let d = sha256(name.as_bytes());
    read_le128(&d)
}

/// Content hash of a text, used to index identical contents together.
pub fn content_hash(text: &str) -> (r: i64)
    ensures
        r as int == content_hash_of(text@),
{
    let d = sha256(text.as_bytes());
    let v = read_be64(&d);
    if v >= 0x8000_0000_0000_0000u64 {
        (v as i128 - 0x1_0000_0000_0000_0000i128) as i64
    } else {
        v as i64
    }
}

/// Hash of a string as a non-negative integer: the absolute value of its content
/// hash (the single most negative hash stays as it is).
pub fn hash_string(input: &str) -> (r: i64)
    ensures
        r as int == wrapping_abs64(content_hash_of(input@)),
{
    let h = content_hash(input);
    if h == i64::MIN { h } else if h < 0 { -h } else { h }
}

/// Key of the blob that holds the text value of an account: the XXH3 hash of the
/// account name. It depends on the name only, never on the content.
pub fn blob_key(account: &str) -> (r: u128)
    ensures
        r == blob_key_of(account@),
{
    xxh3(account.as_bytes()) as u128
}

/// The same name always yields the same identifier, and the same account always
/// yields the same blob key.
pub proof fn lemma_addressing_deterministic(a: Seq<char>, b: Seq<char>)
    requires
        a == b,
    ensures
        account_id_of(a) == account_id_of(b),
        blob_key_of(a) == blob_key_of(b),
{
}

} // verus!
