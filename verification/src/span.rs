//! Byte ranges of the log, packed into one fixed-size index value.
//!
//! Offsets are 64 bits wide. The log is held in memory, so its length, and
//! with it every offset, fits.

use vstd::prelude::*;

verus! {

/// The weight of the upper half of a packed range: two to the 64th.
pub const SPLIT: u128 = 0x1_0000_0000_0000_0000;

/// The range `[start, end)` as one number: `start` in the upper 64 bits,
/// `end` in the lower 64.
pub open spec fn spec_pack_range(start: u64, end: u64) -> u128 {
    (start * SPLIT + end) as u128
}

/// The two halves of a packed range, `(start, end)`.
pub open spec fn spec_unpack_range(packed: u128) -> (u64, u64) {
    ((packed / SPLIT) as u64, (packed % SPLIT) as u64)
}

/// Packs the range `[start, end)` into one index value.
#[verifier::when_used_as_spec(spec_pack_range)]
pub fn pack_range(start: u64, end: u64) -> (packed: u128)
    ensures
        packed == spec_pack_range(start, end),
{
    let packed: u128 = ((start as u128) << 64) | (end as u128);
    assert(((start as u128) << 64) | (end as u128) == start as u128
        * 0x1_0000_0000_0000_0000u128 + end as u128) by (bit_vector);
    packed
}

/// Splits a packed index value into `(start, end)`.
#[verifier::when_used_as_spec(spec_unpack_range)]
pub fn unpack_range(packed: u128) -> (range: (u64, u64))
    ensures
        range == spec_unpack_range(packed),
{
    let start: u128 = packed >> 64;
    let end: u128 = packed & 0xffff_ffff_ffff_ffff;
    assert(packed >> 64 == packed / 0x1_0000_0000_0000_0000u128) by (bit_vector);
    assert(packed & 0xffff_ffff_ffff_ffff == packed % 0x1_0000_0000_0000_0000u128)
        by (bit_vector);
    (start as u64, end as u64)
}

/// Splitting a packed range gives back the pair that was packed, for every
/// pair of 64-bit offsets.
pub proof fn lemma_unpack_pack(start: u64, end: u64)
    ensures
        spec_unpack_range(spec_pack_range(start, end)) == (start, end),
{
    assert((start * SPLIT + end) / (SPLIT as int) == start && (start * SPLIT + end) % (
    SPLIT as int) == end) by (nonlinear_arith)
        requires
            0 <= end < SPLIT,
            SPLIT > 0,
    ;
}

/// Packing the two halves of an index value gives the value back.
pub proof fn lemma_pack_unpack(packed: u128)
    ensures
        spec_pack_range(spec_unpack_range(packed).0, spec_unpack_range(packed).1) == packed,
{
}

} // verus!
