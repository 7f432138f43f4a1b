//! Stable 128-bit identifiers for POIs and trails.
//!
//! An author-supplied token decodes through a fixed scheme: if it is
//! valid base64 for exactly sixteen bytes, those bytes are the
//! identifier; otherwise the MD5 digest of the raw token is.  Collisions
//! inside one pack are resolved by drawing a replacement identifier.

use vstd::prelude::*;
use base64::Engine;

verus! {

/// What base64 decoding of a token yields when the token is valid
/// base64, and nothing when it is not.  Named rather than written out:
/// the alphabet and padding rules live in the base64 crate.
pub uninterp spec fn b64_of(s: Seq<char>) -> Option<Seq<u8>>;

/// Relies on base64's STANDARD engine `decode`: the result is a function
/// of the input characters alone.
#[verifier::external_body]
fn b64_decode(s: &str) -> (r: Option<Vec<u8>>)
    ensures
        match r {
            Some(v) => b64_of(s@) == Some(v@),
            None => b64_of(s@) is None,
        },
{
    base64::engine::general_purpose::STANDARD.decode(s).ok()
}

/// The MD5 digest of the token's text.  Named rather than written out:
/// nothing here re-states the digest algorithm.
pub uninterp spec fn md5_of(s: Seq<char>) -> Seq<u8>;

/// Relies on md5::compute: a sixteen-byte digest that is a function of
/// the input alone.
#[verifier::external_body]
fn md5_digest(s: &str) -> (r: Vec<u8>)
    ensures
        r@ == md5_of(s@),
        r@.len() == 16,
{
    md5::compute(s).0.to_vec()
}

/// Relies on getrandom::fill: sixteen bytes of OS entropy, or a
/// reported failure when the OS refuses — never a panic.  Nothing is
/// promised of the bytes' values.
#[verifier::external_body]
fn random_bytes() -> (r: Option<Vec<u8>>)
    ensures
        r matches Some(b) ==> b@.len() == 16,
{
    let mut buf = [0u8; 16];
    match getrandom::fill(&mut buf) {
        Ok(()) => Some(buf.to_vec()),
        Err(_) => None,
    }
}

/// Little-endian value of a byte string.
pub open spec fn u128_le(b: Seq<u8>) -> int
    decreases b.len(),
{
    if b.len() == 0 {
        0
    } else {
        b[0] + 256 * u128_le(b.drop_first())
    }
}

/// Sixteen bytes read little-endian fit in an unsigned 128-bit value.
proof fn lemma_u128_le_bound(b: Seq<u8>, k: nat)
    requires
        b.len() <= k,
        k <= 16,
    ensures
        0 <= u128_le(b) < pow256(k),
    decreases b.len(),
{
    if b.len() > 0 {
        lemma_u128_le_bound(b.drop_first(), (k - 1) as nat);
        assert(pow256(k) == 256 * pow256((k - 1) as nat));
    } else {
        lemma_pow256_pos(k);
    }
}

/// 256 to the given power.
pub open spec fn pow256(n: nat) -> int
    decreases n,
{
    if n == 0 {
        1
    } else {
        256 * pow256((n - 1) as nat)
    }
}

proof fn lemma_pow256_pos(n: nat)
    ensures
        pow256(n) >= 1,
    decreases n,
{
    if n > 0 {
        lemma_pow256_pos((n - 1) as nat);
    }
}

proof fn lemma_pow256_mono(a: nat, b: nat)
    requires
        a <= b,
    ensures
        pow256(a) <= pow256(b),
    decreases b,
{
    if a < b {
        lemma_pow256_mono(a, (b - 1) as nat);
        lemma_pow256_pos((b - 1) as nat);
    }
}

proof fn lemma_pow256_16()
    ensures
        pow256(16) == 0x100000000000000000000000000000000,
{
    assert(pow256(0) == 1);
    assert(pow256(1) == 0x100);
    assert(pow256(2) == 0x10000);
    assert(pow256(3) == 0x1000000);
    assert(pow256(4) == 0x100000000);
    assert(pow256(5) == 0x10000000000);
    assert(pow256(6) == 0x1000000000000);
    assert(pow256(7) == 0x100000000000000);
    assert(pow256(8) == 0x10000000000000000);
    assert(pow256(9) == 0x1000000000000000000);
    assert(pow256(10) == 0x100000000000000000000);
    assert(pow256(11) == 0x10000000000000000000000);
    assert(pow256(12) == 0x1000000000000000000000000);
    assert(pow256(13) == 0x100000000000000000000000000);
    assert(pow256(14) == 0x10000000000000000000000000000);
    assert(pow256(15) == 0x1000000000000000000000000000000);
    assert(pow256(16) == 0x100000000000000000000000000000000);
}

/// Pack sixteen bytes, little-endian, into one 128-bit identifier.
fn u128_from_le(b: &Vec<u8>) -> (r: u128)
    requires
        b@.len() == 16,
    ensures
        r as int == u128_le(b@),
{
    let mut acc: u128 = 0;
    let mut i: usize = 16;
    while i > 0
        invariant
            b@.len() == 16,
            i <= 16,
            acc == u128_le(b@.skip(i as int)),
            acc < pow256((16 - i) as nat),
        decreases i,
    {
        proof {
            lemma_pow256_16();
            lemma_u128_le_bound(b@.skip(i as int), (16 - i) as nat);
            lemma_pow256_pos((16 - i) as nat);
            assert(pow256((16 - i + 1) as nat) == 256 * pow256((16 - i) as nat));
            lemma_u128_le_bound(b@.skip(i - 1), (16 - i + 1) as nat);
        }
        i = i - 1;
        assert(b@.skip(i as int).drop_first() =~= b@.skip(i + 1));
        proof {
            assert(pow256((16 - i) as nat) == 256 * pow256((15 - i) as nat));
            lemma_pow256_mono((16 - i) as nat, 16);
        }
        acc = acc * 256 + (b[i] as u128);
    }
    assert(b@.skip(0) =~= b@);
    acc
}

/// The stable identifier an author token decodes to: its sixteen base64
/// bytes when it has exactly sixteen, else its MD5 digest.
pub open spec fn guid_of_token(tok: Seq<char>) -> int {
    match b64_of(tok) {
        Some(b) => if b.len() == 16 {
            u128_le(b)
        } else {
            u128_le(md5_of(tok))
        },
        None => u128_le(md5_of(tok)),
    }
}

/// Decode an author-supplied token to its stable identifier.
pub fn taco_token_to_guid(tok: &str) -> (r: u128)
    ensures
        r as int == guid_of_token(tok@),
{
    if let Some(bytes) = b64_decode(tok) {
        if bytes.len() == 16 {
            return u128_from_le(&bytes);
        }
    }
    let digest = md5_digest(tok);
    u128_from_le(&digest)
}

/// Linear membership test on an identifier list.
pub fn contains_guid(v: &Vec<u128>, x: u128) -> (r: bool)
    ensures
        r == v@.contains(x),
{
    for i in 0..v.len()
        invariant
            forall|j: int| 0 <= j < i ==> v@[j] != x,
    {
        if v[i] == x {
            return true;
        }
    }
    false
}

/// A list that contains every value below `n` has at least `n` entries.
proof fn lemma_small_vals_pigeonhole(s: Seq<u128>, n: nat)
    requires
        n <= 0x10000000000000000,
        forall|k: int| 0 <= k < n ==> s.contains(#[trigger] (k as u128)),
    ensures
        s.len() >= n,
    decreases n,
{
    if n > 0 {
        let v = ((n - 1) as int) as u128;
        let idx = choose|i: int| 0 <= i < s.len() && s[i] == v;
        let s2 = s.remove(idx);
        assert forall|k: int| 0 <= k < n - 1 implies s2.contains(#[trigger] (k as u128)) by {
            let j = choose|j: int| 0 <= j < s.len() && s[j] == (k as u128);
            assert((k as u128) != v);
            assert(j != idx);
            if j < idx {
                assert(s2[j] == s[j]);
            } else {
                assert(s2[j - 1] == s[j]);
            }
        }
        lemma_small_vals_pigeonhole(s2, (n - 1) as nat);
    }
}

/// Draw an identifier that is not in use: one random draw (skipped if
/// the OS has no entropy to give), then a deterministic probe that the
/// pigeonhole argument shows must land.
pub fn fresh_guid(used: &Vec<u128>) -> (r: u128)
    ensures
        !used@.contains(r),
{
    if let Some(bytes) = random_bytes() {
        let cand = u128_from_le(&bytes);
        if !contains_guid(used, cand) {
            return cand;
        }
    }
    let n = used.len();
    for i in 0..n
        invariant
            n == used@.len(),
            forall|k: int| 0 <= k < i ==> used@.contains(#[trigger] (k as u128)),
    {
        if !contains_guid(used, i as u128) {
            return i as u128;
        }
    }
    // every value 0..n is in a list of length n: the last probe is free
    proof {
        if used@.contains(n as u128) {
            assert(forall|k: int|
                0 <= k < n + 1 ==> used@.contains(#[trigger] (k as u128))) by {
                assert(forall|k: int|
                    0 <= k < n ==> used@.contains(#[trigger] (k as u128)));
            }
            lemma_small_vals_pigeonhole(used@, (n + 1) as nat);
            assert(false);
        }
    }
    n as u128
}

} // verus!
