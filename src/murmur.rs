//! The 32-bit MurmurHash2 function, bit-compatible with the published reference.

use byteorder::{ByteOrder, LittleEndian};
use vstd::prelude::*;

verus! {

/// Multiplier of the mixing function.
pub const M: u32 = 0x5bd1e995;

/// Right-shift used when mixing a four-byte block.
pub const R: u32 = 24;

/// The little-endian value of the four bytes of `key` that start at `at`.
pub open spec fn le_u32(key: Seq<u8>, at: int) -> u32 {
    (key[at] as int + key[at + 1] as int * 0x100 + key[at + 2] as int * 0x1_0000 + key[at + 3] as int
        * 0x100_0000) as u32
}

/// One mixing round: block `k` folded into the running hash `h`.
pub open spec fn mix_spec(h: u32, k: u32) -> u32 {
    let k1 = k.wrapping_mul(M);
    let k2 = k1 ^ (k1 >> R);
    let k3 = k2.wrapping_mul(M);
    h.wrapping_mul(M) ^ k3
}

/// The running hash after the first `n` four-byte blocks of `key`.
pub open spec fn blocks_spec(h: u32, key: Seq<u8>, n: nat) -> u32
    decreases n,
{
    if n == 0 {
        h
    } else {
        mix_spec(blocks_spec(h, key, (n - 1) as nat), le_u32(key, 4 * (n - 1)))
    }
}

/// The trailing zero to three bytes folded into `h`.
pub open spec fn tail_spec(h: u32, rest: Seq<u8>) -> u32 {
    if rest.len() == 3 {
        let h1 = h ^ ((rest[2] as u32) << 16u32);
        let h2 = h1 ^ ((rest[1] as u32) << 8u32);
        (h2 ^ (rest[0] as u32)).wrapping_mul(M)
    } else if rest.len() == 2 {
        let h1 = h ^ ((rest[1] as u32) << 8u32);
        (h1 ^ (rest[0] as u32)).wrapping_mul(M)
    } else if rest.len() == 1 {
        (h ^ (rest[0] as u32)).wrapping_mul(M)
    } else {
        h
    }
}

/// The final avalanche.
pub open spec fn finish_spec(h: u32) -> u32 {
    let h1 = h ^ (h >> 13u32);
    let h2 = h1.wrapping_mul(M);
    h2 ^ (h2 >> 15u32)
}

/// MurmurHash2 (32-bit) of `key` with `seed`.
pub open spec fn murmur2(key: Seq<u8>, seed: u32) -> u32 {
    let n = key.len() / 4;
    let h = blocks_spec(seed ^ (key.len() as u32), key, n);
    finish_spec(tail_spec(h, key.subrange(4 * n as int, key.len() as int)))
}

proof fn lemma_mul_injective(x: u32, y: u32)
    requires
        x.wrapping_mul(M) == y.wrapping_mul(M),
    ensures
        x == y,
{
    assert(((x as nat * M as nat) % 0x1_0000_0000nat) as u32 == (x * 0x5bd1e995u32) as u32) by (bit_vector);
    assert(((y as nat * M as nat) % 0x1_0000_0000nat) as u32 == (y * 0x5bd1e995u32) as u32) by (bit_vector);
    assert(((x * 0x5bd1e995u32) as u32 * 0xe59b19bdu32) as u32 == x) by (bit_vector);
    assert(((y * 0x5bd1e995u32) as u32 * 0xe59b19bdu32) as u32 == y) by (bit_vector);
}

proof fn lemma_xor_cancel(a: u32, b: u32, k: u32)
    by (bit_vector)
    requires
        a ^ k == b ^ k,
    ensures
        a == b,
{
}

proof fn lemma_shift_mix_injective(x: u32, y: u32)
    by (bit_vector)
    requires
        (x ^ (x >> 24u32) == y ^ (y >> 24u32)) || (x ^ (x >> 13u32) == y ^ (y >> 13u32)) || (x ^ (x >> 15u32)
            == y ^ (y >> 15u32)),
    ensures
        x == y,
{
}

proof fn lemma_bytes_fold(h: u32, a0: u8, a1: u8, a2: u8, b0: u8, b1: u8, b2: u8)
    by (bit_vector)
    ensures
        ((h ^ ((a2 as u32) << 16u32)) ^ ((a1 as u32) << 8u32)) ^ (a0 as u32) == ((h ^ ((b2 as u32)
            << 16u32)) ^ ((b1 as u32) << 8u32)) ^ (b0 as u32) ==> a0 == b0 && a1 == b1 && a2 == b2,
        (h ^ ((a1 as u32) << 8u32)) ^ (a0 as u32) == (h ^ ((b1 as u32) << 8u32)) ^ (b0 as u32) ==> a0 == b0
            && a1 == b1,
        h ^ (a0 as u32) == h ^ (b0 as u32) ==> a0 == b0,
{
}

proof fn lemma_mix_injective(h1: u32, h2: u32, k1: u32, k2: u32)
    requires
        mix_spec(h1, k1) == mix_spec(h2, k2),
    ensures
        k1 == k2 ==> h1 == h2,
        h1 == h2 ==> k1 == k2,
{
    let a1 = k1.wrapping_mul(M);
    let a2 = k2.wrapping_mul(M);
    let b1 = a1 ^ (a1 >> R);
    let b2 = a2 ^ (a2 >> R);
    let c1 = b1.wrapping_mul(M);
    let c2 = b2.wrapping_mul(M);
    if k1 == k2 {
        lemma_xor_cancel(h1.wrapping_mul(M), h2.wrapping_mul(M), c1);
        lemma_mul_injective(h1, h2);
    }
    if h1 == h2 {
        assert(c1 == c2) by {
            let g = h1.wrapping_mul(M);
            assert(g ^ c1 == g ^ c2 ==> c1 == c2) by (bit_vector);
        }
        lemma_mul_injective(b1, b2);
        lemma_shift_mix_injective(a1, a2);
        lemma_mul_injective(k1, k2);
    }
}

proof fn lemma_finish_injective(x: u32, y: u32)
    requires
        finish_spec(x) == finish_spec(y),
    ensures
        x == y,
{
    let x1 = x ^ (x >> 13u32);
    let y1 = y ^ (y >> 13u32);
    lemma_shift_mix_injective(x1.wrapping_mul(M), y1.wrapping_mul(M));
    lemma_mul_injective(x1, y1);
    lemma_shift_mix_injective(x, y);
}

proof fn lemma_tail_injective(h1: u32, h2: u32, r1: Seq<u8>, r2: Seq<u8>)
    requires
        r1.len() == r2.len(),
        r1.len() < 4,
        tail_spec(h1, r1) == tail_spec(h2, r2),
        h1 == h2 || r1 == r2,
    ensures
        h1 == h2 && r1 =~= r2,
{
    if r1.len() == 0 {
    } else {
        let (a0, a1, a2) = (r1[0], if r1.len() > 1 { r1[1] } else { 0u8 }, if r1.len() > 2 { r1[2] } else { 0u8 });
        let (b0, b1, b2) = (r2[0], if r2.len() > 1 { r2[1] } else { 0u8 }, if r2.len() > 2 { r2[2] } else { 0u8 });
        if r1.len() == 3 {
            let f1 = ((h1 ^ ((a2 as u32) << 16u32)) ^ ((a1 as u32) << 8u32)) ^ (a0 as u32);
            let f2 = ((h2 ^ ((b2 as u32) << 16u32)) ^ ((b1 as u32) << 8u32)) ^ (b0 as u32);
            lemma_mul_injective(f1, f2);
            if h1 == h2 {
                lemma_bytes_fold(h1, a0, a1, a2, b0, b1, b2);
            } else {
                assert(a0 == b0 && a1 == b1 && a2 == b2);
                let u = ((a2 as u32) << 16u32);
                let v = ((a1 as u32) << 8u32);
                let w = (a0 as u32);
                assert(((h1 ^ u) ^ v) ^ w == ((h2 ^ u) ^ v) ^ w ==> h1 == h2) by (bit_vector);
            }
        } else if r1.len() == 2 {
            let f1 = (h1 ^ ((a1 as u32) << 8u32)) ^ (a0 as u32);
            let f2 = (h2 ^ ((b1 as u32) << 8u32)) ^ (b0 as u32);
            lemma_mul_injective(f1, f2);
            if h1 == h2 {
                lemma_bytes_fold(h1, a0, a1, a2, b0, b1, b2);
            } else {
                assert(a0 == b0 && a1 == b1);
                let v = ((a1 as u32) << 8u32);
                let w = (a0 as u32);
                assert((h1 ^ v) ^ w == (h2 ^ v) ^ w ==> h1 == h2) by (bit_vector);
            }
        } else {
            lemma_mul_injective(h1 ^ (a0 as u32), h2 ^ (b0 as u32));
            if h1 == h2 {
                lemma_bytes_fold(h1, a0, a1, a2, b0, b1, b2);
            } else {
                lemma_xor_cancel(h1, h2, a0 as u32);
            }
        }
    }
}

/// Two inputs of one length that differ in exactly the byte at `p`.
pub open spec fn differ_at(s1: Seq<u8>, s2: Seq<u8>, p: int) -> bool {
    &&& s1.len() == s2.len()
    &&& 0 <= p < s1.len()
    &&& s1[p] != s2[p]
    &&& forall|j: int| 0 <= j < s1.len() && j != p ==> s1[j] == s2[j]
}

proof fn lemma_blocks_differ(h: u32, s1: Seq<u8>, s2: Seq<u8>, p: int, n: nat)
    requires
        differ_at(s1, s2, p),
        n <= s1.len() / 4,
    ensures
        n <= p / 4 ==> blocks_spec(h, s1, n) == blocks_spec(h, s2, n),
        n > p / 4 ==> blocks_spec(h, s1, n) != blocks_spec(h, s2, n),
    decreases n,
{
    if n > 0 {
        let m = (n - 1) as nat;
        lemma_blocks_differ(h, s1, s2, p, m);
        let at: int = 4 * (m as int);
        let k1 = le_u32(s1, at);
        let k2 = le_u32(s2, at);
        if m != p / 4 {
            assert(s1[at] == s2[at] && s1[at + 1] == s2[at + 1] && s1[at + 2] == s2[at + 2] && s1[at + 3]
                == s2[at + 3]);
            assert(k1 == k2);
            if m > p / 4 && blocks_spec(h, s1, n) == blocks_spec(h, s2, n) {
                lemma_mix_injective(blocks_spec(h, s1, m), blocks_spec(h, s2, m), k1, k2);
            }
        } else {
            let v1 = s1[at] as int + s1[at + 1] as int * 0x100 + s1[at + 2] as int * 0x1_0000 + s1[at + 3] as int
                * 0x100_0000;
            let v2 = s2[at] as int + s2[at + 1] as int * 0x100 + s2[at + 2] as int * 0x1_0000 + s2[at + 3] as int
                * 0x100_0000;
            assert(v1 != v2);
            assert(k1 == v1 && k2 == v2);
            if blocks_spec(h, s1, n) == blocks_spec(h, s2, n) {
                lemma_mix_injective(blocks_spec(h, s1, m), blocks_spec(h, s2, m), k1, k2);
            }
        }
    }
}

/// Inputs of one length that differ in a single byte hash differently under
/// any seed: every step of the function is a bijection of the running hash.
pub proof fn lemma_one_byte_changes_hash(s1: Seq<u8>, s2: Seq<u8>, p: int, seed: u32)
    requires
        differ_at(s1, s2, p),
    ensures
        murmur2(s1, seed) != murmur2(s2, seed),
{
    let n = s1.len() / 4;
    let h0 = seed ^ (s1.len() as u32);
    lemma_blocks_differ(h0, s1, s2, p, n);
    let b1 = blocks_spec(h0, s1, n);
    let b2 = blocks_spec(h0, s2, n);
    let r1 = s1.subrange(4 * n as int, s1.len() as int);
    let r2 = s2.subrange(4 * n as int, s2.len() as int);
    assert(s2.len() / 4 == n);
    if murmur2(s1, seed) == murmur2(s2, seed) {
        lemma_finish_injective(tail_spec(b1, r1), tail_spec(b2, r2));
        if p < 4 * n {
            assert(r1 =~= r2);
            lemma_tail_injective(b1, b2, r1, r2);
        } else {
            lemma_tail_injective(b1, b2, r1, r2);
            assert(r1[p - 4 * n] == s1[p]);
            assert(r2[p - 4 * n] == s2[p]);
        }
    }
}

/// Relies on byteorder's `LittleEndian::read_u32`: the first four bytes read
/// as a little-endian integer (it panics on a shorter slice).
#[verifier::external_body]
fn read_le_u32(block: &[u8]) -> (r: u32)
    requires
        block@.len() >= 4,
    ensures
        r == le_u32(block@, 0),
{
    LittleEndian::read_u32(block)
}

/// Folds the block `k` into the running hash `h`.
pub fn mix(h: u32, k: u32) -> (r: u32)
    ensures
        r == mix_spec(h, k),
{
    let mut k = k.wrapping_mul(M);
    k = k ^ (k >> R);
    k = k.wrapping_mul(M);
    h.wrapping_mul(M) ^ k
}

/// Folds the last zero to three bytes of the input into `h`.
pub fn tail(h: u32, rest: &[u8]) -> (r: u32)
    ensures
        r == tail_spec(h, rest@),
{
    let mut h = h;
    let n = rest.len();
    if n == 3 {
        h = h ^ ((rest[2] as u32) << 16u32);
        h = h ^ ((rest[1] as u32) << 8u32);
        h = h ^ (rest[0] as u32);
        h.wrapping_mul(M)
    } else if n == 2 {
        h = h ^ ((rest[1] as u32) << 8u32);
        h = h ^ (rest[0] as u32);
        h.wrapping_mul(M)
    } else if n == 1 {
        h = h ^ (rest[0] as u32);
        h.wrapping_mul(M)
    } else {
        h
    }
}

/// MurmurHash2 (32-bit) of `key` with `seed`.
pub fn murmurhash2_32(key: &[u8], seed: u32) -> (r: u32)
    ensures
        r == murmur2(key@, seed),
{
    let len = key.len();
    let nblocks = len / 4;
    let mut h: u32 = seed ^ (len as u32);
    let ghost h0 = h;
    let mut i: usize = 0;
    while i < nblocks
        invariant
            len == key@.len(),
            nblocks == len / 4,
            i <= nblocks,
            h0 == seed ^ (len as u32),
            h == blocks_spec(h0, key@, i as nat),
        decreases nblocks - i,
    {
        let at = 4 * i;
        let block = &key[at..at + 4];
        let k = read_le_u32(block);
        assert(k == le_u32(key@, 4 * i)) by {
            assert(block@ == key@.subrange(at as int, at + 4));
        }
        h = mix(h, k);
        i = i + 1;
    }
    let rest = &key[4 * nblocks..len];
    h = tail(h, rest);
    h = h ^ (h >> 13u32);
    h = h.wrapping_mul(M);
    h ^ (h >> 15u32)
}

} // verus!
