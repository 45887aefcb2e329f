//! The content verifier: a downloaded or existing file is accepted when its
//! length and its whitespace-insensitive fingerprint match the record.

use crate::artifact::Mod;
use crate::murmur::{murmur2, murmurhash2_32, differ_at, lemma_one_byte_changes_hash};
use vstd::prelude::*;

verus! {

/// Seed with which the remote provider computes fingerprints.
pub const FINGERPRINT_SEED: u32 = 1;

/// Tab, line feed, carriage return and space: the bytes the provider leaves
/// out before fingerprinting.
pub open spec fn is_whitespace_byte(b: u8) -> bool {
    b == 9 || b == 10 || b == 13 || b == 32
}

/// The content with every whitespace byte left out, order kept.
pub open spec fn stripped(content: Seq<u8>) -> Seq<u8> {
    content.filter(|b: u8| !is_whitespace_byte(b))
}

/// The fingerprint the provider publishes for `content`.
pub open spec fn fingerprint_of(content: Seq<u8>) -> u32 {
    murmur2(stripped(content), FINGERPRINT_SEED)
}

proof fn lemma_strip_prefix_same(c: Seq<u8>, d: Seq<u8>, i: int, k: int)
    requires
        c.len() == d.len(),
        0 <= k <= i < c.len(),
        forall|j: int| 0 <= j < c.len() && j != i ==> c[j] == d[j],
    ensures
        stripped(c.take(k)) == stripped(d.take(k)),
    decreases k,
{
    reveal(Seq::filter);
    if k == 0 {
        assert(c.take(0) =~= d.take(0));
    } else {
        lemma_strip_prefix_same(c, d, i, k - 1);
        assert(c.take(k).drop_last() =~= c.take(k - 1));
        assert(d.take(k).drop_last() =~= d.take(k - 1));
        assert(c.take(k).last() == d.take(k).last());
    }
}

proof fn lemma_strip_one_differs(c: Seq<u8>, d: Seq<u8>, i: int, k: int)
    requires
        differ_at(c, d, i),
        !is_whitespace_byte(c[i]),
        !is_whitespace_byte(d[i]),
        i < k <= c.len(),
    ensures
        differ_at(stripped(c.take(k)), stripped(d.take(k)), stripped(c.take(i)).len() as int),
    decreases k,
{
    reveal(Seq::filter);
    let p = stripped(c.take(i)).len() as int;
    assert(c.take(k).drop_last() =~= c.take(k - 1));
    assert(d.take(k).drop_last() =~= d.take(k - 1));
    if k == i + 1 {
        lemma_strip_prefix_same(c, d, i, i);
        assert(c.take(k).last() == c[i] && d.take(k).last() == d[i]);
    } else {
        lemma_strip_one_differs(c, d, i, k - 1);
        assert(c.take(k).last() == d.take(k).last());
    }
}

/// Changing one byte that counts towards the fingerprint, and leaving the
/// length alone, always changes the fingerprint: a file of the recorded length
/// that passed `verify_file` is reported as a fingerprint mismatch once any
/// such byte of it is flipped.
pub proof fn lemma_flipped_byte_changes_fingerprint(c: Seq<u8>, d: Seq<u8>, i: int)
    requires
        differ_at(c, d, i),
        !is_whitespace_byte(c[i]),
        !is_whitespace_byte(d[i]),
    ensures
        fingerprint_of(c) != fingerprint_of(d),
{
    lemma_strip_one_differs(c, d, i, c.len() as int);
    assert(c.take(c.len() as int) =~= c);
    assert(d.take(d.len() as int) =~= d);
    lemma_one_byte_changes_hash(stripped(c), stripped(d), stripped(c.take(i)).len() as int, FINGERPRINT_SEED);
}

/// Why a file was not accepted.
pub enum VerifyError {
    /// The file does not have the recorded length.
    Length { file_name: String, expected_len: u64, actual_len: u64 },
    /// The file has the recorded length but another fingerprint.
    Fingerprint { file_name: String, expected_hash: u32, actual_hash: u32 },
}

/// True for a byte that counts towards the fingerprint.
pub fn is_not_whitespace(b: &u8) -> (r: bool)
    ensures
        r == !is_whitespace_byte(*b),
{
    let b = *b;
    b != 9 && b != 10 && b != 13 && b != 32
}

/// The content with the whitespace bytes left out.
pub fn strip_whitespace(content: &[u8]) -> (r: Vec<u8>)
    ensures
        r@ == stripped(content@),
{
    let mut out: Vec<u8> = Vec::new();
    let mut i: usize = 0;
    while i < content.len()
        invariant
            i <= content@.len(),
            out@ == stripped(content@.take(i as int)),
        decreases content@.len() - i,
    {
        proof {
            reveal(Seq::filter);
            assert(content@.take(i + 1).drop_last() == content@.take(i as int));
        }
        if is_not_whitespace(&content[i]) {
            out.push(content[i]);
        }
        i = i + 1;
    }
    proof {
        reveal(Seq::filter);
        assert(content@.take(content@.len() as int) == content@);
    }
    out
}

/// Checks `content` against the length and fingerprint recorded in `m`. The
/// length is compared first; the fingerprint is computed only when it matches.
pub fn verify_file(content: &[u8], m: &Mod) -> (r: Result<(), VerifyError>)
    ensures
        content@.len() != m.file_size ==> (r matches Err(
            VerifyError::Length { file_name, expected_len, actual_len },
        ) && file_name@ == m.file_name@ && expected_len == m.file_size && actual_len == content@.len()),
        content@.len() == m.file_size && fingerprint_of(content@) != m.fingerprint ==> (r matches Err(
            VerifyError::Fingerprint { file_name, expected_hash, actual_hash },
        ) && file_name@ == m.file_name@ && expected_hash == m.fingerprint && actual_hash == fingerprint_of(
            content@,
        )),
        r is Ok <==> content@.len() == m.file_size && fingerprint_of(content@) == m.fingerprint,
{
    let len = content.len() as u64;
    if len != m.file_size {
        return Err(VerifyError::Length {
            file_name: m.file_name.clone(),
            expected_len: m.file_size,
            actual_len: len,
        });
    }
    let kept = strip_whitespace(content);
    let h = murmurhash2_32(kept.as_slice(), FINGERPRINT_SEED);
    if h != m.fingerprint {
        return Err(VerifyError::Fingerprint {
            file_name: m.file_name.clone(),
            expected_hash: m.fingerprint,
            actual_hash: h,
        });
    }
    Ok(())
}

} // verus!
