//! The checksum verifier: a CRC-32 over the encoded body bytes followed by
//! the encoded footnote bytes.  The checksum itself comes from the
//! `crc32fast` crate; its hasher is modelled by the sequence of bytes it has
//! been fed so far, so that feeding the parts one by one is provably the same
//! as hashing their concatenation.

use vstd::prelude::*;

verus! {

/// The CRC-32 (standard polynomial) of a byte sequence, as `crc32fast`
/// computes it.  The value depends on the bytes alone.
pub uninterp spec fn crc32_of(data: Seq<u8>) -> u32;

/// The bytes a `crc32fast::Hasher` has been fed since it was created.
pub uninterp spec fn hasher_fed(h: crc32fast::Hasher) -> Seq<u8>;

#[verifier::external_type_specification]
#[verifier::external_body]
pub struct ExHasher(crc32fast::Hasher);

/// Relies on `crc32fast::Hasher::new`: a fresh hasher has processed no bytes.
#[verifier::external_body]
fn hasher_new() -> (h: crc32fast::Hasher)
    ensures
        hasher_fed(h) == Seq::<u8>::empty(),
{
    crc32fast::Hasher::new()
}

/// Relies on `crc32fast::Hasher::update`: the given bytes are appended to
/// what the hasher has processed.
#[verifier::external_body]
fn hasher_update(h: &mut crc32fast::Hasher, buf: &[u8])
    ensures
        hasher_fed(*final(h)) == hasher_fed(*old(h)) + buf@,
{
    h.update(buf);
}

/// Relies on `crc32fast::Hasher::finalize`: the result is the CRC-32 of all
/// bytes processed, a function of those bytes alone.
#[verifier::external_body]
fn hasher_finalize(h: crc32fast::Hasher) -> (r: u32)
    ensures
        r == crc32_of(hasher_fed(h)),
{
    h.finalize()
}

/// CRC-32 over `body ++ footnotes`, accumulated part by part in that order.
/// By the hasher model this equals the checksum of the concatenated buffer.
pub fn compute_checksum(body: &[u8], footnotes: &[u8]) -> (r: u32)
    ensures
        r == crc32_of(body@ + footnotes@),
{
    let mut h = hasher_new();
    hasher_update(&mut h, body);
    hasher_update(&mut h, footnotes);
    proof {
        assert(hasher_fed(h) =~= body@ + footnotes@);
    }
    hasher_finalize(h)
}

} // verus!
