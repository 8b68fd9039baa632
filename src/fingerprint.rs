//! The per-file feature that decides whether two files are duplicates:
//! the file's length and a 64-bit FNV-1a digest of its bytes.

use vstd::prelude::*;

verus! {

pub const DIGEST_OFFSET: u64 = 0xcbf2_9ce4_8422_2325;

pub const DIGEST_PRIME: u64 = 0x0000_0100_0000_01b3;

/// FNV-1a over `b`: starting from the offset, each byte is xored in, then the
/// state is multiplied by the prime modulo 2^64.
pub open spec fn digest_of(b: Seq<u8>) -> u64
    decreases b.len(),
{
    if b.len() == 0 {
        DIGEST_OFFSET
    } else {
        (digest_of(b.drop_last()) ^ (b.last() as u64)).wrapping_mul(DIGEST_PRIME)
    }
}

/// Two files are taken as duplicates exactly when their fingerprints are equal.
#[derive(Clone, Copy, Debug, PartialEq, Eq, Structural)]
pub struct Fingerprint {
    pub length: u64,
    pub digest: u64,
}

pub open spec fn fingerprint_spec(b: Seq<u8>) -> Fingerprint {
    Fingerprint { length: b.len() as u64, digest: digest_of(b) }
}

/// The FNV-1a digest of `bytes`.
pub fn digest(bytes: &Vec<u8>) -> (r: u64)
    ensures
        r == digest_of(bytes@),
{
    let mut h: u64 = DIGEST_OFFSET;
    let mut i: usize = 0;
    while i < bytes.len()
        invariant
            i <= bytes@.len(),
            h == digest_of(bytes@.take(i as int)),
        decreases bytes@.len() - i,
    {
        proof {
            assert(bytes@.take(i as int + 1).drop_last() =~= bytes@.take(i as int));
        }
        h = (h ^ (bytes[i] as u64)).wrapping_mul(DIGEST_PRIME);
        i = i + 1;
    }
    proof {
        assert(bytes@.take(bytes@.len() as int) =~= bytes@);
    }
    h
}

/// The fingerprint of a file whose content is `bytes`.
pub fn fingerprint_of(bytes: &Vec<u8>) -> (r: Fingerprint)
    ensures
        r == fingerprint_spec(bytes@),
{
    Fingerprint { length: bytes.len() as u64, digest: digest(bytes) }
}

} // verus!
