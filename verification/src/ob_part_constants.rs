//! Wire format of partition ids.
//!
//! A two-level partitioned table addresses a physical partition by packing
//! the first-level partition id and the second-level partition id into one
//! signed 64-bit value: the first-level id is shifted left by
//! `PART_ID_SHIFT`, the second-level id occupies the low bits, and `MASK`
//! tags the value as a composed id. Level-zero and unpartitioned tables use
//! partition id 0.

use vstd::prelude::*;

verus! {

/// Number of significant bits in each of the two partition id fields.
pub const PART_ID_BITNUM: u32 = 28;

/// Distance the first-level partition id is shifted left.
pub const PART_ID_SHIFT: u32 = 32;

/// Largest id either field can carry.
pub const MAX_PART_ID: i64 = 0x0FFF_FFFF;

/// Tag bits set on every composed two-level partition id: one just above
/// the second-level field and one just above the first-level field.
pub const MASK: i64 = (1i64 << 28) | (1i64 << 60);

/// The composed id of the pair `(first_part_id, sub_part_id)`.
pub open spec fn spec_generate_part_id(first_part_id: i64, sub_part_id: i64) -> i64 {
    (first_part_id << PART_ID_SHIFT) | sub_part_id | MASK
}

/// The first-level id recovered from a composed id.
pub open spec fn spec_extract_first_part_id(id: i64) -> i64 {
    (id >> PART_ID_SHIFT) & MAX_PART_ID
}

/// The second-level id recovered from a composed id.
pub open spec fn spec_extract_sub_part_id(id: i64) -> i64 {
    id & MAX_PART_ID
}

/// Packs a first-level and a second-level partition id into the composed
/// wire id.
pub fn generate_part_id(first_part_id: i64, sub_part_id: i64) -> (id: i64)
    requires
        0 <= first_part_id <= MAX_PART_ID,
        0 <= sub_part_id <= MAX_PART_ID,
    ensures
        id == spec_generate_part_id(first_part_id, sub_part_id),
{
    (first_part_id << PART_ID_SHIFT) | sub_part_id | MASK
}

/// Recovers the first-level partition id from a composed wire id.
pub fn extract_first_part_id(id: i64) -> (first: i64)
    ensures
        first == spec_extract_first_part_id(id),
{
    (id >> PART_ID_SHIFT) & MAX_PART_ID
}

/// Recovers the second-level partition id from a composed wire id.
pub fn extract_sub_part_id(id: i64) -> (sub: i64)
    ensures
        sub == spec_extract_sub_part_id(id),
{
    id & MAX_PART_ID
}

/// Law: the two-level partition id encoding round-trips. Decoding the
/// composed id of any in-range pair `(first_part_id, sub_part_id)` yields
/// the pair again.
pub proof fn lemma_part_id_round_trip(first_part_id: i64, sub_part_id: i64)
    requires
        0 <= first_part_id <= MAX_PART_ID,
        0 <= sub_part_id <= MAX_PART_ID,
    ensures
        spec_extract_first_part_id(spec_generate_part_id(first_part_id, sub_part_id))
            == first_part_id,
        spec_extract_sub_part_id(spec_generate_part_id(first_part_id, sub_part_id))
            == sub_part_id,
{
    let i1 = first_part_id;
    let i2 = sub_part_id;
    assert((((i1 << 32) | i2 | ((1i64 << 28) | (1i64 << 60))) >> 32) & 0x0FFF_FFFFi64 == i1)
        by (bit_vector)
        requires
            0 <= i1 <= 0x0FFF_FFFFi64,
            0 <= i2 <= 0x0FFF_FFFFi64,
    ;
    assert(((i1 << 32) | i2 | ((1i64 << 28) | (1i64 << 60))) & 0x0FFF_FFFFi64 == i2)
        by (bit_vector)
        requires
            0 <= i1 <= 0x0FFF_FFFFi64,
            0 <= i2 <= 0x0FFF_FFFFi64,
    ;
}

/// A composed id of an in-range pair is non-negative: the sign bit stays
/// clear.
pub proof fn lemma_part_id_nonnegative(first_part_id: i64, sub_part_id: i64)
    requires
        0 <= first_part_id <= MAX_PART_ID,
        0 <= sub_part_id <= MAX_PART_ID,
    ensures
        spec_generate_part_id(first_part_id, sub_part_id) >= 0,
{
    let i1 = first_part_id;
    let i2 = sub_part_id;
    assert(((i1 << 32) | i2 | ((1i64 << 28) | (1i64 << 60))) >= 0i64)
        by (bit_vector)
        requires
            0 <= i1 <= 0x0FFF_FFFFi64,
            0 <= i2 <= 0x0FFF_FFFFi64,
    ;
}

/// Composed ids carry the tag bits, so they are never 0: the composed id of
/// a two-level table can always be told apart from the id of an
/// unpartitioned table.
pub proof fn lemma_part_id_nonzero(first_part_id: i64, sub_part_id: i64)
    requires
        0 <= first_part_id <= MAX_PART_ID,
        0 <= sub_part_id <= MAX_PART_ID,
    ensures
        spec_generate_part_id(first_part_id, sub_part_id) != 0,
{
    let i1 = first_part_id;
    let i2 = sub_part_id;
    assert(((i1 << 32) | i2 | ((1i64 << 28) | (1i64 << 60))) != 0i64)
        by (bit_vector)
        requires
            0 <= i1 <= 0x0FFF_FFFFi64,
            0 <= i2 <= 0x0FFF_FFFFi64,
    ;
}

} // verus!
