//! Partition descriptors: the per-scheme logic that maps a row key, or a
//! range of row keys, to partition ids.
//!
//! A descriptor reads the row-key columns named at descriptor preparation
//! time, through their resolved ordinals. Hash and key schemes reduce the
//! read values to an integer and take it modulo the partition count; the
//! range scheme finds the first upper bound above the tuple; the list
//! scheme matches the tuple against an explicit mapping with an optional
//! default partition.

use core::cmp::Ordering;
use vstd::prelude::*;

use crate::error::{common_err, CommonErrCode, Error};
use crate::ob_part_constants::MAX_PART_ID;
use crate::part_func_type::PartFuncType;
use crate::value::{
    spec_row_key_eq, spec_row_key_has_null, spec_tuple_cmp, spec_value_cmp, spec_value_eq,
    value_cmp, value_eq, Value,
};

verus! {

/// One range partition: every tuple below `upper_bound` (and above the
/// previous partition's bound) belongs to partition `part_id`.
#[derive(Debug)]
pub struct RangePartEntry {
    pub upper_bound: Vec<Value>,
    pub part_id: i64,
}

/// One list partition: the tuples equal to `values` belong to `part_id`.
#[derive(Debug)]
pub struct ListPartEntry {
    pub values: Vec<Value>,
    pub part_id: i64,
}

/// The per-scheme shape of a partition descriptor.
#[derive(Debug)]
pub enum PartScheme {
    /// Integer hash of the key columns modulo `part_num`.
    Hash { part_num: u64 },
    /// Hash over the normalized bytes of the key columns modulo
    /// `part_num`.
    Key { part_num: u64 },
    /// Ordered upper-bound tuples; a point belongs to the first partition
    /// whose bound lies strictly above it.
    Range { parts: Vec<RangePartEntry> },
    /// Explicit tuple-to-partition mapping with an optional default
    /// partition for unmatched tuples.
    List { parts: Vec<ListPartEntry>, default_part_id: Option<i64> },
}

/// A prepared partition descriptor: the scheme, the names of the
/// partition-key columns, and their resolved positions in the row key.
#[derive(Debug)]
pub struct PartDesc {
    pub part_func_type: PartFuncType,
    pub scheme: PartScheme,
    pub part_columns: Vec<String>,
    pub ordinals: Vec<usize>,
}

impl PartDesc {
    /// The static part of well-formedness: the descriptor names at least
    /// one column, its scheme matches its declared partition function
    /// kind, and its partition count (or bound list) is non-empty and
    /// within the id range of the wire format. Holds before and after the
    /// ordinals are resolved.
    pub open spec fn wf_scheme(self) -> bool {
        &&& self.part_columns@.len() > 0
        &&& match self.scheme {
            PartScheme::Hash { part_num } => self.part_func_type.spec_is_hash_part() && 0
                < part_num <= MAX_PART_ID as u64,
            PartScheme::Key { part_num } => self.part_func_type.spec_is_key_part() && 0 < part_num
                <= MAX_PART_ID as u64,
            PartScheme::Range { parts } => self.part_func_type.spec_is_range_part()
                && parts@.len() > 0 && (forall|i: int|
                0 <= i < parts@.len() ==> 0 <= #[trigger] parts@[i].part_id <= MAX_PART_ID),
            PartScheme::List { parts, default_part_id } => self.part_func_type.spec_is_list_part()
                && (forall|i: int|
                0 <= i < parts@.len() ==> 0 <= #[trigger] parts@[i].part_id <= MAX_PART_ID) && (
            default_part_id matches Some(d) ==> 0 <= d <= MAX_PART_ID),
        }
    }

    /// A descriptor is well formed when its scheme is and its ordinals
    /// are resolved, one per named column.
    pub open spec fn wf(self) -> bool {
        &&& self.wf_scheme()
        &&& self.ordinals@.len() == self.part_columns@.len()
    }
}

/// Every ordinal points inside the row key.
pub open spec fn spec_extract_ok(row_key: Seq<Value>, ords: Seq<usize>) -> bool {
    forall|i: int| 0 <= i < ords.len() ==> (ords[i] as int) < row_key.len()
}

/// The partition-key tuple: the row-key values at the resolved ordinals.
pub open spec fn spec_extracted(row_key: Seq<Value>, ords: Seq<usize>) -> Seq<Value> {
    Seq::new(ords.len(), |i: int| row_key[ords[i] as int])
}

/// Tests that every ordinal points inside the row key.
fn check_extract(row_key: &[Value], ords: &Vec<usize>) -> (b: bool)
    ensures
        b == spec_extract_ok(row_key@, ords@),
{
    let mut i: usize = 0;
    while i < ords.len()
        invariant
            i <= ords@.len(),
            forall|j: int| 0 <= j < i ==> (ords@[j] as int) < row_key@.len(),
        decreases ords@.len() - i,
    {
        if ords[i] >= row_key.len() {
            return false;
        }
        i = i + 1;
    }
    true
}

/// The value of `v` reinterpreted as an unsigned 64-bit integer.
pub open spec fn spec_i64_to_u64(v: i64) -> u64 {
    if v >= 0 {
        v as u64
    } else {
        (v + 0x1_0000_0000_0000_0000) as u64
    }
}

fn i64_to_u64(v: i64) -> (r: u64)
    ensures
        r == spec_i64_to_u64(v),
{
    if v >= 0 {
        v as u64
    } else {
        let t: i64 = -(v + 1);
        u64::MAX - (t as u64)
    }
}

/// Every extracted value is an integer column.
pub open spec fn spec_all_int(vals: Seq<Value>) -> bool {
    forall|i: int| 0 <= i < vals.len() ==> vals[i] is Int
}

/// The integer hash of a tuple of integer columns: the exclusive-or of
/// their unsigned reinterpretations.
pub open spec fn spec_hash_value(vals: Seq<Value>) -> u64
    decreases vals.len(),
{
    if vals.len() == 0 {
        0u64
    } else {
        spec_hash_value(vals.drop_last()) ^ spec_i64_to_u64(vals.last()->Int_0)
    }
}

/// The hash-scheme partition id: the integer hash modulo the partition
/// count.
pub open spec fn spec_hash_part_id(vals: Seq<Value>, part_num: u64) -> i64
    recommends
        part_num > 0,
{
    (spec_hash_value(vals) % part_num) as i64
}

/// One step of the byte-hash fold: `h * 31 + b`, wrapping.
pub open spec fn spec_hash_step(h: u64, b: u64) -> u64 {
    vstd::wrapping::u64_specs::wrapping_add(vstd::wrapping::u64_specs::wrapping_mul(h, 31), b)
}

/// The rolling hash of a byte string.
pub open spec fn spec_bytes_hash(s: Seq<u8>) -> u64
    decreases s.len(),
{
    if s.len() == 0 {
        0u64
    } else {
        spec_hash_step(spec_bytes_hash(s.drop_last()), s.last() as u64)
    }
}

/// The rolling hash of a character string, over code points.
pub open spec fn spec_chars_hash(s: Seq<char>) -> u64
    decreases s.len(),
{
    if s.len() == 0 {
        0u64
    } else {
        spec_hash_step(spec_chars_hash(s.drop_last()), (s.last() as u32) as u64)
    }
}

/// A value the key scheme can hash: an integer, character or binary
/// column.
pub open spec fn spec_hashable(v: Value) -> bool {
    v is Int || v is String || v is Bytes
}

/// Every extracted value is hashable.
pub open spec fn spec_all_hashable(vals: Seq<Value>) -> bool {
    forall|i: int| 0 <= i < vals.len() ==> spec_hashable(vals[i])
}

/// The normalized hash of one value.
pub open spec fn spec_value_hash(v: Value) -> u64 {
    match v {
        Value::Int(x) => spec_i64_to_u64(x),
        Value::String(s) => spec_chars_hash(s@),
        Value::Bytes(b) => spec_bytes_hash(b@),
        _ => 0u64,
    }
}

/// The key-scheme hash of a tuple: the rolling combination of the
/// normalized per-value hashes.
pub open spec fn spec_key_hash(vals: Seq<Value>) -> u64
    decreases vals.len(),
{
    if vals.len() == 0 {
        0u64
    } else {
        spec_hash_step(spec_key_hash(vals.drop_last()), spec_value_hash(vals.last()))
    }
}

/// The key-scheme partition id: the key hash modulo the partition count.
pub open spec fn spec_key_part_id(vals: Seq<Value>, part_num: u64) -> i64
    recommends
        part_num > 0,
{
    (spec_key_hash(vals) % part_num) as i64
}

/// The range-scheme lookup: the partition of the first upper bound
/// strictly above the tuple. Nothing when a bound is incomparable with the
/// tuple or every bound lies at or below it.
pub open spec fn spec_range_lookup(vals: Seq<Value>, parts: Seq<RangePartEntry>) -> Option<i64>
    decreases parts.len(),
{
    if parts.len() == 0 {
        None
    } else {
        match spec_tuple_cmp(vals, parts[0].upper_bound@) {
            Option::None => None,
            Option::Some(c) => if c == -1 {
                Some(parts[0].part_id)
            } else {
                spec_range_lookup(vals, parts.skip(1))
            },
        }
    }
}

/// The list-scheme lookup: the partition of the first entry whose tuple
/// equals the key, or the default partition.
pub open spec fn spec_list_lookup(
    vals: Seq<Value>,
    parts: Seq<ListPartEntry>,
    default_part_id: Option<i64>,
) -> Option<i64>
    decreases parts.len(),
{
    if parts.len() == 0 {
        default_part_id
    } else if spec_row_key_eq(vals, parts[0].values@) {
        Some(parts[0].part_id)
    } else {
        spec_list_lookup(vals, parts.skip(1), default_part_id)
    }
}

impl PartDesc {
    /// The partition id of a row key under this descriptor, or nothing
    /// when the key cannot be resolved (an out-of-range ordinal, a column
    /// the scheme cannot digest, or no covering range partition).
    pub open spec fn spec_get_part_id(self, row_key: Seq<Value>) -> Option<i64> {
        if !spec_extract_ok(row_key, self.ordinals@) {
            None
        } else {
            let vals = spec_extracted(row_key, self.ordinals@);
            match self.scheme {
                PartScheme::Hash { part_num } => if spec_all_int(vals) {
                    Some(spec_hash_part_id(vals, part_num))
                } else {
                    None
                },
                PartScheme::Key { part_num } => if spec_all_hashable(vals) {
                    Some(spec_key_part_id(vals, part_num))
                } else {
                    None
                },
                PartScheme::Range { parts } => if spec_row_key_has_null(vals) {
                    None
                } else {
                    spec_range_lookup(vals, parts@)
                },
                PartScheme::List { parts, default_part_id } => spec_list_lookup(
                    vals,
                    parts@,
                    default_part_id,
                ),
            }
        }
    }
}

/// Computes the integer hash over the extracted columns.
fn hash_over_extracted(row_key: &[Value], ords: &Vec<usize>) -> (r: Result<u64, Error>)
    ensures
        match r {
            Ok(h) => {
                &&& spec_extract_ok(row_key@, ords@)
                &&& spec_all_int(spec_extracted(row_key@, ords@))
                &&& h == spec_hash_value(spec_extracted(row_key@, ords@))
            },
            Err(e) => {
                &&& !(spec_extract_ok(row_key@, ords@) && spec_all_int(
                    spec_extracted(row_key@, ords@),
                ))
                &&& e.spec_code() is PartitionError
            },
        },
{
    let ghost vals = spec_extracted(row_key@, ords@);
    let mut h: u64 = 0;
    let mut i: usize = 0;
    while i < ords.len()
        invariant
            i <= ords@.len(),
            forall|j: int| 0 <= j < i ==> (ords@[j] as int) < row_key@.len(),
            forall|j: int| 0 <= j < i ==> row_key@[ords@[j] as int] is Int,
            vals == spec_extracted(row_key@, ords@),
            h == spec_hash_value(vals.subrange(0, i as int)),
        decreases ords@.len() - i,
    {
        let ord = ords[i];
        if ord >= row_key.len() {
            return Err(common_err(
                CommonErrCode::PartitionError,
                "partition key ordinal is out of range of the row key",
            ));
        }
        let x: i64 = match &row_key[ord] {
            Value::Int(x) => *x,
            _ => {
                proof {
                    assert(vals[i as int] == row_key@[ords@[i as int] as int]);
                }
                return Err(common_err(
                    CommonErrCode::PartitionError,
                    "hash partitioning requires integer partition-key columns",
                ));
            },
        };
        proof {
            let pre = vals.subrange(0, i as int);
            let post = vals.subrange(0, i as int + 1);
            assert(post.drop_last() =~= pre);
            assert(post.last() == vals[i as int]);
            assert(vals[i as int] == row_key@[ords@[i as int] as int]);
        }
        h = h ^ i64_to_u64(x);
        i = i + 1;
    }
    proof {
        assert(vals.subrange(0, ords@.len() as int) =~= vals);
        assert forall|j: int| 0 <= j < vals.len() implies vals[j] is Int by {
            assert(vals[j] == row_key@[ords@[j] as int]);
        }
    }
    Ok(h)
}

/// Computes the rolling hash of a byte column.
fn bytes_hash(b: &Vec<u8>) -> (h: u64)
    ensures
        h == spec_bytes_hash(b@),
{
    let mut h: u64 = 0;
    let mut i: usize = 0;
    while i < b.len()
        invariant
            i <= b@.len(),
            h == spec_bytes_hash(b@.subrange(0, i as int)),
        decreases b@.len() - i,
    {
        proof {
            let pre = b@.subrange(0, i as int);
            let post = b@.subrange(0, i as int + 1);
            assert(post.drop_last() =~= pre);
            assert(post.last() == b@[i as int]);
        }
        h = h.wrapping_mul(31).wrapping_add(b[i] as u64);
        i = i + 1;
    }
    proof {
        assert(b@.subrange(0, b@.len() as int) =~= b@);
    }
    h
}

/// Computes the rolling hash of a character column, over code points.
fn chars_hash(s: &String) -> (h: u64)
    ensures
        h == spec_chars_hash(s@),
{
    let st = s.as_str();
    let len = st.unicode_len();
    let mut h: u64 = 0;
    let mut i: usize = 0;
    while i < len
        invariant
            i <= len,
            len == s@.len(),
            st@ == s@,
            h == spec_chars_hash(s@.subrange(0, i as int)),
        decreases len - i,
    {
        proof {
            let pre = s@.subrange(0, i as int);
            let post = s@.subrange(0, i as int + 1);
            assert(post.drop_last() =~= pre);
            assert(post.last() == s@[i as int]);
        }
        let c = st.get_char(i);
        h = h.wrapping_mul(31).wrapping_add((c as u32) as u64);
        i = i + 1;
    }
    proof {
        assert(s@.subrange(0, s@.len() as int) =~= s@);
    }
    h
}

/// Computes the normalized hash of one value; nothing when the value is
/// not hashable.
fn value_hash(v: &Value) -> (r: Option<u64>)
    ensures
        r is Some <==> spec_hashable(*v),
        r matches Some(h) ==> h == spec_value_hash(*v),
{
    match v {
        Value::Int(x) => Some(i64_to_u64(*x)),
        Value::String(s) => Some(chars_hash(s)),
        Value::Bytes(b) => Some(bytes_hash(b)),
        _ => None,
    }
}

/// Computes the key hash over the extracted columns.
fn key_hash_over_extracted(row_key: &[Value], ords: &Vec<usize>) -> (r: Result<u64, Error>)
    ensures
        match r {
            Ok(h) => {
                &&& spec_extract_ok(row_key@, ords@)
                &&& spec_all_hashable(spec_extracted(row_key@, ords@))
                &&& h == spec_key_hash(spec_extracted(row_key@, ords@))
            },
            Err(e) => {
                &&& !(spec_extract_ok(row_key@, ords@) && spec_all_hashable(
                    spec_extracted(row_key@, ords@),
                ))
                &&& e.spec_code() is PartitionError
            },
        },
{
    let ghost vals = spec_extracted(row_key@, ords@);
    let mut h: u64 = 0;
    let mut i: usize = 0;
    while i < ords.len()
        invariant
            i <= ords@.len(),
            forall|j: int| 0 <= j < i ==> (ords@[j] as int) < row_key@.len(),
            forall|j: int| 0 <= j < i ==> spec_hashable(row_key@[ords@[j] as int]),
            vals == spec_extracted(row_key@, ords@),
            h == spec_key_hash(vals.subrange(0, i as int)),
        decreases ords@.len() - i,
    {
        let ord = ords[i];
        if ord >= row_key.len() {
            return Err(common_err(
                CommonErrCode::PartitionError,
                "partition key ordinal is out of range of the row key",
            ));
        }
        let vh = match value_hash(&row_key[ord]) {
            Some(vh) => vh,
            None => {
                proof {
                    assert(vals[i as int] == row_key@[ords@[i as int] as int]);
                }
                return Err(common_err(
                    CommonErrCode::PartitionError,
                    "key partitioning cannot digest this partition-key column",
                ));
            },
        };
        proof {
            let pre = vals.subrange(0, i as int);
            let post = vals.subrange(0, i as int + 1);
            assert(post.drop_last() =~= pre);
            assert(post.last() == vals[i as int]);
            assert(vals[i as int] == row_key@[ords@[i as int] as int]);
        }
        h = h.wrapping_mul(31).wrapping_add(vh);
        i = i + 1;
    }
    proof {
        assert(vals.subrange(0, ords@.len() as int) =~= vals);
        assert forall|j: int| 0 <= j < vals.len() implies spec_hashable(vals[j]) by {
            assert(vals[j] == row_key@[ords@[j] as int]);
        }
    }
    Ok(h)
}

/// Tests whether any extracted column is `Null`.
fn extracted_has_null(row_key: &[Value], ords: &Vec<usize>) -> (b: bool)
    requires
        spec_extract_ok(row_key@, ords@),
    ensures
        b == spec_row_key_has_null(spec_extracted(row_key@, ords@)),
{
    let ghost vals = spec_extracted(row_key@, ords@);
    let mut i: usize = 0;
    while i < ords.len()
        invariant
            i <= ords@.len(),
            spec_extract_ok(row_key@, ords@),
            vals == spec_extracted(row_key@, ords@),
            forall|j: int| 0 <= j < i ==> !(vals[j] is Null),
        decreases ords@.len() - i,
    {
        proof {
            assert(vals[i as int] == row_key@[ords@[i as int] as int]);
        }
        if row_key[ords[i]].is_null() {
            return true;
        }
        i = i + 1;
    }
    false
}

/// Compares the extracted tuple against a bound tuple.
fn extracted_cmp(row_key: &[Value], ords: &Vec<usize>, bound: &Vec<Value>) -> (r: Option<Ordering>)
    requires
        spec_extract_ok(row_key@, ords@),
    ensures
        ({
            let c = spec_tuple_cmp(spec_extracted(row_key@, ords@), bound@);
            &&& (r is None <==> c is None)
            &&& (r matches Some(o) ==> {
                &&& (o is Less <==> c == Some(-1int))
                &&& (o is Equal <==> c == Some(0int))
                &&& (o is Greater <==> c == Some(1int))
            })
        }),
{
    let ghost vals = spec_extracted(row_key@, ords@);
    if ords.len() != bound.len() {
        return None;
    }
    let mut i: usize = 0;
    proof {
        assert(vals.skip(0) =~= vals);
        assert(bound@.skip(0) =~= bound@);
    }
    loop
        invariant
            i <= ords@.len(),
            ords@.len() == bound@.len(),
            spec_extract_ok(row_key@, ords@),
            vals == spec_extracted(row_key@, ords@),
            spec_tuple_cmp(vals, bound@) == spec_tuple_cmp(
                vals.skip(i as int),
                bound@.skip(i as int),
            ),
        decreases ords@.len() - i,
    {
        if i == ords.len() {
            proof {
                assert(vals.skip(i as int).len() == 0);
                assert(bound@.skip(i as int).len() == 0);
            }
            return Some(Ordering::Equal);
        }
        proof {
            assert(vals.skip(i as int)[0] == vals[i as int]);
            assert(bound@.skip(i as int)[0] == bound@[i as int]);
            assert(vals[i as int] == row_key@[ords@[i as int] as int]);
        }
        match value_cmp(&row_key[ords[i]], &bound[i]) {
            Option::None => {
                return None;
            },
            Option::Some(Ordering::Less) => {
                return Some(Ordering::Less);
            },
            Option::Some(Ordering::Greater) => {
                return Some(Ordering::Greater);
            },
            Option::Some(Ordering::Equal) => {
                proof {
                    crate::value::lemma_tuple_cmp_step(vals, bound@, i as int);
                }
                i = i + 1;
            },
        }
    }
}

/// Tests the extracted tuple for equality with a list-entry tuple.
fn extracted_eq(row_key: &[Value], ords: &Vec<usize>, values: &Vec<Value>) -> (r: bool)
    requires
        spec_extract_ok(row_key@, ords@),
    ensures
        r == spec_row_key_eq(spec_extracted(row_key@, ords@), values@),
{
    let ghost vals = spec_extracted(row_key@, ords@);
    if ords.len() != values.len() {
        return false;
    }
    let mut i: usize = 0;
    while i < ords.len()
        invariant
            i <= ords@.len(),
            ords@.len() == values@.len(),
            spec_extract_ok(row_key@, ords@),
            vals == spec_extracted(row_key@, ords@),
            forall|j: int| 0 <= j < i ==> spec_value_eq(vals[j], values@[j]),
        decreases ords@.len() - i,
    {
        proof {
            assert(vals[i as int] == row_key@[ords@[i as int] as int]);
        }
        if !value_eq(&row_key[ords[i]], &values[i]) {
            return false;
        }
        i = i + 1;
    }
    true
}

/// Stepping past a bound at or below the tuple leaves the range lookup
/// unchanged.
proof fn lemma_range_lookup_step(vals: Seq<Value>, parts: Seq<RangePartEntry>, i: int)
    requires
        0 <= i < parts.len(),
        spec_tuple_cmp(vals, parts[i].upper_bound@) matches Some(c) && c != -1,
    ensures
        spec_range_lookup(vals, parts.skip(i)) == spec_range_lookup(vals, parts.skip(i + 1)),
{
    let s = parts.skip(i);
    assert(s[0] == parts[i]);
    assert(s.skip(1) =~= parts.skip(i + 1));
}

/// Stepping past an unequal list entry leaves the list lookup unchanged.
proof fn lemma_list_lookup_step(
    vals: Seq<Value>,
    parts: Seq<ListPartEntry>,
    default_part_id: Option<i64>,
    i: int,
)
    requires
        0 <= i < parts.len(),
        !spec_row_key_eq(vals, parts[i].values@),
    ensures
        spec_list_lookup(vals, parts.skip(i), default_part_id) == spec_list_lookup(
            vals,
            parts.skip(i + 1),
            default_part_id,
        ),
{
    let s = parts.skip(i);
    assert(s[0] == parts[i]);
    assert(s.skip(1) =~= parts.skip(i + 1));
}

/// The index of the first bound that stops a scan tuple: a bound strictly
/// above the tuple, or equal to it when `stop_on_equal` is set. Reports
/// the bound count when no bound stops the tuple, and nothing when a
/// bound is incomparable with it.
pub open spec fn spec_scan_idx(
    vals: Seq<Value>,
    parts: Seq<RangePartEntry>,
    stop_on_equal: bool,
) -> Option<int>
    decreases parts.len(),
{
    if parts.len() == 0 {
        Some(0int)
    } else {
        match spec_tuple_cmp(vals, parts[0].upper_bound@) {
            Option::None => None,
            Option::Some(c) => if c == -1 || (stop_on_equal && c == 0) {
                Some(0int)
            } else {
                match spec_scan_idx(vals, parts.skip(1), stop_on_equal) {
                    Option::None => None,
                    Option::Some(k) => Some(1 + k),
                }
            },
        }
    }
}

/// The ids `0, 1, …, part_num - 1` that a hash or key scheme expands a
/// range to.
pub open spec fn spec_all_ids(part_num: u64) -> Seq<i64> {
    Seq::new(part_num as nat, |i: int| i as i64)
}

/// The ids of the contiguous range partitions `lo ..= hi`.
pub open spec fn spec_range_ids(parts: Seq<RangePartEntry>, lo: int, hi: int) -> Seq<i64> {
    if lo > hi {
        Seq::empty()
    } else {
        Seq::new((hi + 1 - lo) as nat, |k: int| parts[lo + k].part_id)
    }
}

/// Every list partition id, with the default partition appended when one
/// exists.
pub open spec fn spec_list_all_ids(
    parts: Seq<ListPartEntry>,
    default_part_id: Option<i64>,
) -> Seq<i64> {
    Seq::new(parts.len(), |i: int| parts[i].part_id) + match default_part_id {
        Option::Some(d) => seq![d],
        Option::None => Seq::empty(),
    }
}

impl PartDesc {
    /// The partition ids a scan over `[start, end]` (with the given
    /// endpoint inclusivities) must visit, or nothing when the range
    /// cannot be resolved.
    ///
    /// Hash and key schemes visit the single partition of the point when
    /// both endpoints are the same tuple and every partition otherwise;
    /// the range scheme visits the contiguous bounds covering the range;
    /// the list scheme visits every partition.
    pub open spec fn spec_get_part_ids(
        self,
        start: Seq<Value>,
        start_inclusive: bool,
        end: Seq<Value>,
        end_inclusive: bool,
    ) -> Option<Seq<i64>> {
        match self.scheme {
            PartScheme::Hash { part_num } => if spec_row_key_eq(start, end) {
                match self.spec_get_part_id(start) {
                    Option::Some(id) => Some(seq![id]),
                    Option::None => None,
                }
            } else {
                Some(spec_all_ids(part_num))
            },
            PartScheme::Key { part_num } => if spec_row_key_eq(start, end) {
                match self.spec_get_part_id(start) {
                    Option::Some(id) => Some(seq![id]),
                    Option::None => None,
                }
            } else {
                Some(spec_all_ids(part_num))
            },
            PartScheme::Range { parts } => {
                if !spec_extract_ok(start, self.ordinals@) || !spec_extract_ok(
                    end,
                    self.ordinals@,
                ) {
                    None
                } else {
                    let s = spec_extracted(start, self.ordinals@);
                    let e = spec_extracted(end, self.ordinals@);
                    if spec_row_key_has_null(s) || spec_row_key_has_null(e) {
                        None
                    } else {
                        match (
                            spec_scan_idx(s, parts@, false),
                            spec_scan_idx(e, parts@, !end_inclusive),
                        ) {
                            (Option::Some(lo), Option::Some(hi_raw)) => {
                                let last = parts@.len() - 1;
                                let hi = if hi_raw > last {
                                    last
                                } else {
                                    hi_raw
                                };
                                Some(spec_range_ids(parts@, lo, hi))
                            },
                            _ => None,
                        }
                    }
                }
            },
            PartScheme::List { parts, default_part_id } => Some(
                spec_list_all_ids(parts@, default_part_id),
            ),
        }
    }
}

/// Stepping past a bound that does not stop the tuple shifts the scan
/// index by one.
proof fn lemma_scan_idx_step(
    vals: Seq<Value>,
    parts: Seq<RangePartEntry>,
    stop_on_equal: bool,
    i: int,
)
    requires
        0 <= i < parts.len(),
        spec_tuple_cmp(vals, parts[i].upper_bound@) matches Some(c) && !(c == -1 || (stop_on_equal
            && c == 0)),
    ensures
        spec_scan_idx(vals, parts.skip(i), stop_on_equal) == match spec_scan_idx(
            vals,
            parts.skip(i + 1),
            stop_on_equal,
        ) {
            Option::None => Option::<int>::None,
            Option::Some(k) => Option::Some(1 + k),
        },
{
    let s = parts.skip(i);
    assert(s[0] == parts[i]);
    assert(s.skip(1) =~= parts.skip(i + 1));
}

/// A scan index lies between 0 and the bound count.
proof fn lemma_scan_idx_le_len(vals: Seq<Value>, parts: Seq<RangePartEntry>, stop_on_equal: bool)
    ensures
        spec_scan_idx(vals, parts, stop_on_equal) matches Some(k) ==> 0 <= k <= parts.len(),
    decreases parts.len(),
{
    if parts.len() > 0 {
        lemma_scan_idx_le_len(vals, parts.skip(1), stop_on_equal);
    }
}

/// The point lookup stops at the scan index: it returns that bound's
/// partition when the index is inside the bounds and nothing otherwise.
proof fn lemma_range_lookup_eq_scan(vals: Seq<Value>, parts: Seq<RangePartEntry>)
    ensures
        spec_range_lookup(vals, parts) == match spec_scan_idx(vals, parts, false) {
            Option::None => Option::<i64>::None,
            Option::Some(k) => if k < parts.len() {
                Option::Some(parts[k].part_id)
            } else {
                Option::None
            },
        },
    decreases parts.len(),
{
    if parts.len() > 0 {
        lemma_range_lookup_eq_scan(vals, parts.skip(1));
        lemma_scan_idx_le_len(vals, parts.skip(1), false);
    }
}

/// A smaller tuple never stops later than a larger one.
proof fn lemma_scan_idx_mono(
    s: Seq<Value>,
    e: Seq<Value>,
    parts: Seq<RangePartEntry>,
)
    requires
        spec_tuple_cmp(s, e) matches Some(c) && c <= 0,
        spec_scan_idx(s, parts, false) is Some,
        spec_scan_idx(e, parts, false) is Some,
    ensures
        spec_scan_idx(s, parts, false)->Some_0 <= spec_scan_idx(e, parts, false)->Some_0,
    decreases parts.len(),
{
    if parts.len() == 0 {
    } else {
        let b0 = parts[0].upper_bound@;
        let cs = spec_tuple_cmp(s, b0);
        let ce = spec_tuple_cmp(e, b0);
        crate::value::lemma_tuple_cmp_range(s, e);
        if ce == Some(-1int) {
            crate::value::lemma_tuple_cmp_trans(s, e, b0);
        } else {
            if cs == Some(-1int) {
                lemma_scan_idx_le_len(e, parts, false);
            } else {
                lemma_scan_idx_mono(s, e, parts.skip(1));
            }
        }
    }
}

/// The list lookup only ever reports ids drawn from the full list-id set.
proof fn lemma_list_lookup_in_all(
    vals: Seq<Value>,
    parts: Seq<ListPartEntry>,
    default_part_id: Option<i64>,
)
    ensures
        spec_list_lookup(vals, parts, default_part_id) matches Some(p) ==> spec_list_all_ids(
            parts,
            default_part_id,
        ).contains(p),
    decreases parts.len(),
{
    let all = spec_list_all_ids(parts, default_part_id);
    if parts.len() == 0 {
        match default_part_id {
            Option::Some(d) => {
                assert(all[0] == d);
            },
            Option::None => {},
        }
    } else if spec_row_key_eq(vals, parts[0].values@) {
        assert(all[0] == parts[0].part_id);
    } else {
        lemma_list_lookup_in_all(vals, parts.skip(1), default_part_id);
        match spec_list_lookup(vals, parts.skip(1), default_part_id) {
            Option::Some(p) => {
                let sub = spec_list_all_ids(parts.skip(1), default_part_id);
                let k = choose|k: int| 0 <= k < sub.len() && sub[k] == p;
                assert(all[k + 1] == sub[k]);
            },
            Option::None => {},
        }
    }
}

/// A tuple that compares equal to another can replace it as the right
/// operand of any tuple comparison.
proof fn lemma_tuple_cmp_zero_congruent_right(x: Seq<Value>, b: Seq<Value>, c: Seq<Value>)
    requires
        spec_tuple_cmp(b, c) == Some(0int),
    ensures
        spec_tuple_cmp(x, b) == spec_tuple_cmp(x, c),
    decreases x.len(),
{
    if b.len() != c.len() {
    } else if x.len() != b.len() {
    } else if x.len() == 0 {
    } else {
        assert(spec_value_cmp(b[0], c[0]) == Some(0int)) by {
            crate::value::lemma_value_cmp_range(b[0], c[0]);
            if spec_value_cmp(b[0], c[0]) != Some(0int) {
                assert(spec_tuple_cmp(b, c) != Some(0int));
            }
        }
        crate::value::lemma_value_cmp_zero_congruent(b[0], c[0], x[0]);
        crate::value::lemma_value_cmp_flip(x[0], b[0]);
        crate::value::lemma_value_cmp_flip(x[0], c[0]);
        assert(spec_value_cmp(x[0], b[0]) == spec_value_cmp(x[0], c[0]));
        lemma_tuple_cmp_zero_congruent_right(x.skip(1), b.skip(1), c.skip(1));
    }
}

/// A strictly smaller tuple never stops later than a larger one, even
/// when the larger one stops on equality.
proof fn lemma_scan_idx_mono_strict(
    s: Seq<Value>,
    e: Seq<Value>,
    parts: Seq<RangePartEntry>,
)
    requires
        spec_tuple_cmp(s, e) == Some(-1int),
        spec_scan_idx(s, parts, false) is Some,
        spec_scan_idx(e, parts, true) is Some,
    ensures
        spec_scan_idx(s, parts, false)->Some_0 <= spec_scan_idx(e, parts, true)->Some_0,
    decreases parts.len(),
{
    if parts.len() == 0 {
    } else {
        let b0 = parts[0].upper_bound@;
        let cs = spec_tuple_cmp(s, b0);
        let ce = spec_tuple_cmp(e, b0);
        crate::value::lemma_tuple_cmp_range(e, b0);
        if ce == Some(-1int) {
            crate::value::lemma_tuple_cmp_trans(s, e, b0);
        } else if ce == Some(0int) {
            lemma_tuple_cmp_zero_congruent_right(s, e, b0);
        } else {
            if cs == Some(-1int) {
                lemma_scan_idx_le_len(e, parts, true);
            } else {
                lemma_scan_idx_mono_strict(s, e, parts.skip(1));
            }
        }
    }
}

/// A range lookup over in-range partition ids reports an in-range id.
proof fn lemma_range_lookup_in_range(vals: Seq<Value>, parts: Seq<RangePartEntry>)
    requires
        forall|i: int| 0 <= i < parts.len() ==> 0 <= #[trigger] parts[i].part_id <= MAX_PART_ID,
    ensures
        spec_range_lookup(vals, parts) matches Some(id) ==> 0 <= id <= MAX_PART_ID,
    decreases parts.len(),
{
    if parts.len() > 0 {
        assert forall|i: int|
            0 <= i < parts.skip(1).len() implies 0 <= #[trigger] parts.skip(1)[i].part_id
            <= MAX_PART_ID by {
            assert(parts.skip(1)[i] == parts[i + 1]);
        }
        lemma_range_lookup_in_range(vals, parts.skip(1));
    }
}

/// A list lookup over in-range partition ids reports an in-range id.
proof fn lemma_list_lookup_in_range(
    vals: Seq<Value>,
    parts: Seq<ListPartEntry>,
    default_part_id: Option<i64>,
)
    requires
        forall|i: int| 0 <= i < parts.len() ==> 0 <= #[trigger] parts[i].part_id <= MAX_PART_ID,
        default_part_id matches Some(d) ==> 0 <= d <= MAX_PART_ID,
    ensures
        spec_list_lookup(vals, parts, default_part_id) matches Some(id) ==> 0 <= id
            <= MAX_PART_ID,
    decreases parts.len(),
{
    if parts.len() > 0 {
        assert forall|i: int|
            0 <= i < parts.skip(1).len() implies 0 <= #[trigger] parts.skip(1)[i].part_id
            <= MAX_PART_ID by {
            assert(parts.skip(1)[i] == parts[i + 1]);
        }
        lemma_list_lookup_in_range(vals, parts.skip(1), default_part_id);
    }
}

/// Law: a well-formed descriptor only ever reports partition ids inside
/// the range the wire format can carry.
pub proof fn lemma_part_id_in_range(desc: PartDesc, row_key: Seq<Value>)
    requires
        desc.wf(),
    ensures
        desc.spec_get_part_id(row_key) matches Some(id) ==> 0 <= id <= MAX_PART_ID,
{
    if spec_extract_ok(row_key, desc.ordinals@) {
        let vals = spec_extracted(row_key, desc.ordinals@);
        match desc.scheme {
            PartScheme::Hash { part_num } => {
                assert(spec_hash_value(vals) % part_num < part_num);
            },
            PartScheme::Key { part_num } => {
                assert(spec_key_hash(vals) % part_num < part_num);
            },
            PartScheme::Range { parts } => {
                lemma_range_lookup_in_range(vals, parts@);
            },
            PartScheme::List { parts, default_part_id } => {
                lemma_list_lookup_in_range(vals, parts@, default_part_id);
            },
        }
    }
}

/// Tuples equal element by element resolve to the same partition id.
pub proof fn lemma_part_id_respects_eq(desc: PartDesc, a: Seq<Value>, b: Seq<Value>)
    requires
        spec_row_key_eq(a, b),
    ensures
        desc.spec_get_part_id(a) == desc.spec_get_part_id(b),
{
    let ords = desc.ordinals@;
    let ae = spec_extracted(a, ords);
    let be = spec_extracted(b, ords);
    assert(spec_extract_ok(a, ords) == spec_extract_ok(b, ords));
    if spec_extract_ok(a, ords) {
        assert forall|i: int| 0 <= i < ae.len() implies spec_value_eq(ae[i], be[i]) by {
            assert(ae[i] == a[ords[i] as int]);
            assert(be[i] == b[ords[i] as int]);
        }
        lemma_extracted_eq_same_resolution(desc, ae, be);
    }
}

/// Two element-wise equal extracted tuples behave identically under every
/// scheme.
proof fn lemma_extracted_eq_same_resolution(desc: PartDesc, ae: Seq<Value>, be: Seq<Value>)
    requires
        ae.len() == be.len(),
        forall|i: int| 0 <= i < ae.len() ==> spec_value_eq(ae[i], be[i]),
    ensures
        spec_all_int(ae) == spec_all_int(be),
        spec_all_int(ae) ==> spec_hash_value(ae) == spec_hash_value(be),
        spec_all_hashable(ae) == spec_all_hashable(be),
        spec_key_hash(ae) == spec_key_hash(be),
        spec_row_key_has_null(ae) == spec_row_key_has_null(be),
        forall|parts: Seq<RangePartEntry>| #![all_triggers]
            spec_range_lookup(ae, parts) == spec_range_lookup(be, parts),
        forall|parts: Seq<ListPartEntry>, d: Option<i64>| #![all_triggers]
            spec_list_lookup(ae, parts, d) == spec_list_lookup(be, parts, d),
    decreases ae.len(),
{
    assert forall|i: int| 0 <= i < ae.len() implies (ae[i] is Int == be[i] is Int) && (spec_hashable(
        ae[i],
    ) == spec_hashable(be[i])) && (ae[i] is Null == be[i] is Null) by {}
    if ae.len() > 0 {
        lemma_extracted_eq_same_resolution(desc, ae.drop_last(), be.drop_last());
        assert(spec_value_eq(ae.last(), be.last()));
        assert(spec_value_hash(ae.last()) == spec_value_hash(be.last()));
        if ae.last() is Int && be.last() is Int {
            assert(ae.last()->Int_0 == be.last()->Int_0);
        }
    }
    assert forall|parts: Seq<RangePartEntry>|
        spec_range_lookup(ae, parts) == spec_range_lookup(be, parts) by {
        lemma_range_lookup_respects_eq(ae, be, parts);
    }
    assert forall|parts: Seq<ListPartEntry>, d: Option<i64>|
        spec_list_lookup(ae, parts, d) == spec_list_lookup(be, parts, d) by {
        lemma_list_lookup_respects_eq(ae, be, parts, d);
    }
}

/// Element-wise equal tuples compare identically against every bound
/// tuple.
proof fn lemma_tuple_cmp_respects_eq(ae: Seq<Value>, be: Seq<Value>, bound: Seq<Value>)
    requires
        ae.len() == be.len(),
        forall|i: int| 0 <= i < ae.len() ==> spec_value_eq(ae[i], be[i]),
    ensures
        spec_tuple_cmp(ae, bound) == spec_tuple_cmp(be, bound),
    decreases ae.len(),
{
    if ae.len() == bound.len() && ae.len() > 0 {
        crate::value::lemma_value_eq_cmp_congruent(ae[0], be[0], bound[0]);
        assert(ae.skip(1).len() == be.skip(1).len());
        assert forall|i: int| 0 <= i < ae.skip(1).len() implies spec_value_eq(
            ae.skip(1)[i],
            be.skip(1)[i],
        ) by {
            assert(ae.skip(1)[i] == ae[i + 1]);
            assert(be.skip(1)[i] == be[i + 1]);
        }
        lemma_tuple_cmp_respects_eq(ae.skip(1), be.skip(1), bound.skip(1));
    }
}

/// Element-wise equal tuples take the same path through a range lookup.
proof fn lemma_range_lookup_respects_eq(
    ae: Seq<Value>,
    be: Seq<Value>,
    parts: Seq<RangePartEntry>,
)
    requires
        ae.len() == be.len(),
        forall|i: int| 0 <= i < ae.len() ==> spec_value_eq(ae[i], be[i]),
    ensures
        spec_range_lookup(ae, parts) == spec_range_lookup(be, parts),
        spec_scan_idx(ae, parts, false) == spec_scan_idx(be, parts, false),
        spec_scan_idx(ae, parts, true) == spec_scan_idx(be, parts, true),
    decreases parts.len(),
{
    if parts.len() > 0 {
        lemma_tuple_cmp_respects_eq(ae, be, parts[0].upper_bound@);
        lemma_range_lookup_respects_eq(ae, be, parts.skip(1));
    }
}

/// Element-wise equal tuples take the same path through a list lookup.
proof fn lemma_list_lookup_respects_eq(
    ae: Seq<Value>,
    be: Seq<Value>,
    parts: Seq<ListPartEntry>,
    d: Option<i64>,
)
    requires
        ae.len() == be.len(),
        forall|i: int| 0 <= i < ae.len() ==> spec_value_eq(ae[i], be[i]),
    ensures
        spec_list_lookup(ae, parts, d) == spec_list_lookup(be, parts, d),
    decreases parts.len(),
{
    if parts.len() > 0 {
        assert(spec_row_key_eq(ae, parts[0].values@) == spec_row_key_eq(be, parts[0].values@))
            by {
            if ae.len() == parts[0].values@.len() {
                assert forall|i: int| 0 <= i < ae.len() implies spec_value_eq(
                    ae[i],
                    parts[0].values@[i],
                ) == spec_value_eq(be[i], parts[0].values@[i]) by {
                    crate::value::lemma_value_eq_congruent(ae[i], be[i], parts[0].values@[i]);
                }
            }
        }
        lemma_list_lookup_respects_eq(ae, be, parts.skip(1), d);
    }
}

/// Finds the index of the first bound that stops the extracted tuple.
fn scan_bounds(
    row_key: &[Value],
    ords: &Vec<usize>,
    parts: &Vec<RangePartEntry>,
    stop_on_equal: bool,
) -> (r: Result<usize, Error>)
    requires
        spec_extract_ok(row_key@, ords@),
    ensures
        match r {
            Ok(k) => spec_scan_idx(
                spec_extracted(row_key@, ords@),
                parts@,
                stop_on_equal,
            ) == Some(k as int) && k <= parts@.len(),
            Err(e) => spec_scan_idx(spec_extracted(row_key@, ords@), parts@, stop_on_equal)
                is None && e.spec_code() is PartitionError,
        },
{
    let ghost vals = spec_extracted(row_key@, ords@);
    let mut i: usize = 0;
    proof {
        assert(parts@.skip(0) =~= parts@);
    }
    loop
        invariant
            i <= parts@.len(),
            spec_extract_ok(row_key@, ords@),
            vals == spec_extracted(row_key@, ords@),
            spec_scan_idx(vals, parts@, stop_on_equal) == match spec_scan_idx(
                vals,
                parts@.skip(i as int),
                stop_on_equal,
            ) {
                Option::None => Option::<int>::None,
                Option::Some(k) => Option::Some(i + k),
            },
        decreases parts@.len() - i,
    {
        if i == parts.len() {
            proof {
                assert(parts@.skip(i as int).len() == 0);
            }
            return Ok(i);
        }
        proof {
            assert(parts@.skip(i as int)[0] == parts@[i as int]);
        }
        match extracted_cmp(row_key, ords, &parts[i].upper_bound) {
            Option::None => {
                return Err(common_err(
                    CommonErrCode::PartitionError,
                    "scan endpoint is incomparable with a range partition bound",
                ));
            },
            Option::Some(Ordering::Less) => {
                return Ok(i);
            },
            Option::Some(Ordering::Equal) => {
                if stop_on_equal {
                    return Ok(i);
                }
                proof {
                    lemma_scan_idx_step(vals, parts@, stop_on_equal, i as int);
                }
                i = i + 1;
            },
            Option::Some(Ordering::Greater) => {
                proof {
                    lemma_scan_idx_step(vals, parts@, stop_on_equal, i as int);
                }
                i = i + 1;
            },
        }
    }
}

/// Builds the id list `0 ..= part_num - 1`.
fn all_ids(part_num: u64) -> (ids: Vec<i64>)
    requires
        part_num <= MAX_PART_ID as u64,
    ensures
        ids@ == spec_all_ids(part_num),
{
    let mut ids: Vec<i64> = Vec::new();
    let mut i: u64 = 0;
    while i < part_num
        invariant
            i <= part_num,
            part_num <= MAX_PART_ID as u64,
            ids@ == spec_all_ids(i),
        decreases part_num - i,
    {
        ids.push(i as i64);
        proof {
            assert(ids@ =~= spec_all_ids((i + 1) as u64));
        }
        i = i + 1;
    }
    proof {
        assert(ids@ =~= spec_all_ids(part_num));
    }
    ids
}

impl PartDesc {
    /// Expands a scan range to the partition ids it must visit.
    ///
    /// The result is exactly `spec_get_part_ids`: the point partition when
    /// both endpoints are the same tuple under a hash or key scheme, every
    /// partition otherwise; the covering contiguous bounds for a range
    /// scheme; every partition for a list scheme. A `PartitionError`
    /// reports an endpoint the scheme cannot place.
    pub fn get_part_ids(
        &self,
        start: &[Value],
        start_inclusive: bool,
        end: &[Value],
        end_inclusive: bool,
    ) -> (r: Result<Vec<i64>, Error>)
        requires
            self.wf(),
        ensures
            match r {
                Ok(ids) => self.spec_get_part_ids(start@, start_inclusive, end@, end_inclusive)
                    == Some(ids@),
                Err(e) => self.spec_get_part_ids(start@, start_inclusive, end@, end_inclusive)
                    is None && e.spec_code() is PartitionError,
            },
    {
        match &self.scheme {
            PartScheme::Hash { part_num } => {
                if crate::value::row_key_eq(start, end) {
                    let id = self.get_part_id(start)?;
                    let ids = vec![id];
                    proof {
                        assert(ids@ =~= seq![id]);
                    }
                    Ok(ids)
                } else {
                    Ok(all_ids(*part_num))
                }
            },
            PartScheme::Key { part_num } => {
                if crate::value::row_key_eq(start, end) {
                    let id = self.get_part_id(start)?;
                    let ids = vec![id];
                    proof {
                        assert(ids@ =~= seq![id]);
                    }
                    Ok(ids)
                } else {
                    Ok(all_ids(*part_num))
                }
            },
            PartScheme::Range { parts } => {
                if !check_extract(start, &self.ordinals) || !check_extract(end, &self.ordinals) {
                    return Err(common_err(
                        CommonErrCode::PartitionError,
                        "partition key ordinal is out of range of a scan endpoint",
                    ));
                }
                if extracted_has_null(start, &self.ordinals) || extracted_has_null(
                    end,
                    &self.ordinals,
                ) {
                    return Err(common_err(
                        CommonErrCode::PartitionError,
                        "range partitioning rejects NULL partition-key columns",
                    ));
                }
                let lo = scan_bounds(start, &self.ordinals, parts, false)?;
                let hi_raw = scan_bounds(end, &self.ordinals, parts, !end_inclusive)?;
                let last = parts.len() - 1;
                let hi = if hi_raw > last {
                    last
                } else {
                    hi_raw
                };
                let ghost glo = lo as int;
                let ghost ghi = hi as int;
                let mut ids: Vec<i64> = Vec::new();
                if lo > hi {
                    proof {
                        assert(ids@ =~= spec_range_ids(parts@, glo, ghi));
                    }
                    return Ok(ids);
                }
                let mut j: usize = lo;
                while j <= hi
                    invariant
                        glo <= j <= ghi + 1,
                        glo == lo,
                        ghi == hi,
                        ghi + 1 <= usize::MAX,
                        ghi < parts@.len(),
                        ids@ =~= Seq::new((j - glo) as nat, |k: int| parts@[glo + k].part_id),
                    decreases ghi + 1 - j,
                {
                    ids.push(parts[j].part_id);
                    proof {
                        assert(ids@ =~= Seq::new(
                            (j + 1 - glo) as nat,
                            |k: int| parts@[glo + k].part_id,
                        ));
                    }
                    j = j + 1;
                }
                proof {
                    assert(ids@ =~= spec_range_ids(parts@, glo, ghi));
                }
                Ok(ids)
            },
            PartScheme::List { parts, default_part_id } => {
                let mut ids: Vec<i64> = Vec::new();
                let mut i: usize = 0;
                while i < parts.len()
                    invariant
                        i <= parts@.len(),
                        ids@ =~= Seq::new(i as nat, |k: int| parts@[k].part_id),
                    decreases parts@.len() - i,
                {
                    ids.push(parts[i].part_id);
                    proof {
                        assert(ids@ =~= Seq::new((i + 1) as nat, |k: int| parts@[k].part_id));
                    }
                    i = i + 1;
                }
                if let Some(d) = default_part_id {
                    ids.push(*d);
                }
                proof {
                    assert(ids@ =~= spec_list_all_ids(parts@, *default_part_id));
                }
                Ok(ids)
            },
        }
    }
}

/// Law: a range expansion covers its endpoints. Whenever `get_part_ids`
/// succeeds, the id set it reports contains the partition of the start
/// point when the start is inclusive, and the partition of the end point
/// when the end is inclusive, whenever those points resolve at all. For a
/// range scheme the law speaks of ranges whose start does not exceed
/// their end, and of equal endpoints only when the end is inclusive: the
/// scan `[x, x)` is empty and visits no partition.
pub proof fn lemma_part_ids_cover(
    desc: PartDesc,
    start: Seq<Value>,
    start_inclusive: bool,
    end: Seq<Value>,
    end_inclusive: bool,
)
    requires
        desc.wf(),
        desc.spec_get_part_ids(start, start_inclusive, end, end_inclusive) is Some,
        desc.scheme matches PartScheme::Range { .. } ==> ({
            let s = spec_extracted(start, desc.ordinals@);
            let e = spec_extracted(end, desc.ordinals@);
            &&& spec_tuple_cmp(s, e) matches Some(c) && c <= 0
            &&& (spec_tuple_cmp(s, e) == Some(0int) ==> end_inclusive)
        }),
    ensures
        ({
            let ids = desc.spec_get_part_ids(start, start_inclusive, end, end_inclusive)->Some_0;
            &&& (start_inclusive ==> match desc.spec_get_part_id(start) {
                Option::Some(p) => ids.contains(p),
                Option::None => true,
            })
            &&& (end_inclusive ==> match desc.spec_get_part_id(end) {
                Option::Some(p) => ids.contains(p),
                Option::None => true,
            })
        }),
{
    let ids = desc.spec_get_part_ids(start, start_inclusive, end, end_inclusive)->Some_0;
    match desc.scheme {
        PartScheme::Hash { part_num } => {
            lemma_point_in_hash_ids(desc, start, end, part_num, ids);
        },
        PartScheme::Key { part_num } => {
            lemma_point_in_hash_ids(desc, start, end, part_num, ids);
        },
        PartScheme::Range { parts } => {
            let s = spec_extracted(start, desc.ordinals@);
            let e = spec_extracted(end, desc.ordinals@);
            let lo = spec_scan_idx(s, parts@, false)->Some_0;
            let hi_raw = spec_scan_idx(e, parts@, !end_inclusive)->Some_0;
            let last = parts@.len() - 1;
            let hi = if hi_raw > last { last } else { hi_raw };
            lemma_scan_idx_le_len(s, parts@, false);
            lemma_scan_idx_le_len(e, parts@, !end_inclusive);
            lemma_range_lookup_eq_scan(s, parts@);
            lemma_range_lookup_eq_scan(e, parts@);
            let c = spec_tuple_cmp(s, e)->Some_0;
            crate::value::lemma_tuple_cmp_range(s, e);
            if start_inclusive && desc.spec_get_part_id(start) is Some {
                let p = desc.spec_get_part_id(start)->Some_0;
                assert(lo < parts@.len() && p == parts@[lo].part_id);
                assert(lo <= hi) by {
                    if end_inclusive {
                        lemma_scan_idx_mono(s, e, parts@);
                    } else {
                        lemma_scan_idx_mono_strict(s, e, parts@);
                    }
                }
                assert(ids[0] == parts@[lo].part_id);
                assert(ids.contains(p));
            }
            if end_inclusive && desc.spec_get_part_id(end) is Some {
                let p = desc.spec_get_part_id(end)->Some_0;
                let le = spec_scan_idx(e, parts@, false)->Some_0;
                assert(le < parts@.len() && p == parts@[le].part_id);
                assert(hi == le);
                assert(lo <= le) by {
                    lemma_scan_idx_mono(s, e, parts@);
                }
                assert(ids[le - lo] == parts@[le].part_id);
                assert(ids.contains(p));
            }
        },
        PartScheme::List { parts, default_part_id } => {
            if spec_extract_ok(start, desc.ordinals@) {
                lemma_list_lookup_in_all(
                    spec_extracted(start, desc.ordinals@),
                    parts@,
                    default_part_id,
                );
            }
            if spec_extract_ok(end, desc.ordinals@) {
                lemma_list_lookup_in_all(
                    spec_extracted(end, desc.ordinals@),
                    parts@,
                    default_part_id,
                );
            }
        },
    }
}

/// Under a hash or key scheme every resolvable point lies in the expanded
/// id set.
proof fn lemma_point_in_hash_ids(
    desc: PartDesc,
    start: Seq<Value>,
    end: Seq<Value>,
    part_num: u64,
    ids: Seq<i64>,
)
    requires
        desc.wf(),
        (desc.scheme matches PartScheme::Hash { part_num: n } && n == part_num) || (desc.scheme
            matches PartScheme::Key { part_num: n } && n == part_num),
        ids == if spec_row_key_eq(start, end) {
            match desc.spec_get_part_id(start) {
                Option::Some(id) => seq![id],
                Option::None => Seq::<i64>::empty(),
            }
        } else {
            spec_all_ids(part_num)
        },
        spec_row_key_eq(start, end) ==> desc.spec_get_part_id(start) is Some,
    ensures
        desc.spec_get_part_id(start) matches Some(p) ==> ids.contains(p),
        desc.spec_get_part_id(end) matches Some(p) ==> ids.contains(p),
{
    if spec_row_key_eq(start, end) {
        lemma_part_id_respects_eq(desc, start, end);
        let p = desc.spec_get_part_id(start)->Some_0;
        assert(ids[0] == p);
        assert(ids.contains(p));
    } else {
        if desc.spec_get_part_id(start) is Some {
            let p = desc.spec_get_part_id(start)->Some_0;
            assert(0 <= p < part_num);
            assert(ids[p as int] == p);
            assert(ids.contains(p));
        }
        if desc.spec_get_part_id(end) is Some {
            let p = desc.spec_get_part_id(end)->Some_0;
            assert(0 <= p < part_num);
            assert(ids[p as int] == p);
            assert(ids.contains(p));
        }
    }
}

impl PartDesc {
    /// Resolves the partition id of one row key under this descriptor.
    ///
    /// The result is exactly `spec_get_part_id`: an id below the partition
    /// count (hash and key schemes), the id of the first bound above the
    /// tuple (range), or the matching or default list partition; a
    /// `PartitionError` on a key the scheme cannot place.
    pub fn get_part_id(&self, row_key: &[Value]) -> (r: Result<i64, Error>)
        requires
            self.wf(),
        ensures
            match r {
                Ok(id) => self.spec_get_part_id(row_key@) == Some(id),
                Err(e) => self.spec_get_part_id(row_key@) is None && e.spec_code()
                    is PartitionError,
            },
    {
        let ghost vals = spec_extracted(row_key@, self.ordinals@);
        match &self.scheme {
            PartScheme::Hash { part_num } => {
                let h = hash_over_extracted(row_key, &self.ordinals)?;
                Ok((h % *part_num) as i64)
            },
            PartScheme::Key { part_num } => {
                let h = key_hash_over_extracted(row_key, &self.ordinals)?;
                Ok((h % *part_num) as i64)
            },
            PartScheme::Range { parts } => {
                if !check_extract(row_key, &self.ordinals) {
                    return Err(common_err(
                        CommonErrCode::PartitionError,
                        "partition key ordinal is out of range of the row key",
                    ));
                }
                if extracted_has_null(row_key, &self.ordinals) {
                    return Err(common_err(
                        CommonErrCode::PartitionError,
                        "range partitioning rejects NULL partition-key columns",
                    ));
                }
                let mut i: usize = 0;
                proof {
                    assert(parts@.skip(0) =~= parts@);
                }
                loop
                    invariant
                        i <= parts@.len(),
                        self.wf(),
                        self.scheme matches PartScheme::Range { parts: ps } && ps@ == parts@,
                        spec_extract_ok(row_key@, self.ordinals@),
                        !spec_row_key_has_null(vals),
                        vals == spec_extracted(row_key@, self.ordinals@),
                        spec_range_lookup(vals, parts@) == spec_range_lookup(
                            vals,
                            parts@.skip(i as int),
                        ),
                    decreases parts@.len() - i,
                {
                    if i == parts.len() {
                        proof {
                            assert(parts@.skip(i as int).len() == 0);
                        }
                        return Err(common_err(
                            CommonErrCode::PartitionError,
                            "row key lies above every range partition bound",
                        ));
                    }
                    proof {
                        assert(parts@.skip(i as int)[0] == parts@[i as int]);
                    }
                    match extracted_cmp(row_key, &self.ordinals, &parts[i].upper_bound) {
                        Option::None => {
                            return Err(common_err(
                                CommonErrCode::PartitionError,
                                "row key is incomparable with a range partition bound",
                            ));
                        },
                        Option::Some(Ordering::Less) => {
                            return Ok(parts[i].part_id);
                        },
                        Option::Some(_) => {
                            proof {
                                lemma_range_lookup_step(vals, parts@, i as int);
                            }
                            i = i + 1;
                        },
                    }
                }
            },
            PartScheme::List { parts, default_part_id } => {
                if !check_extract(row_key, &self.ordinals) {
                    return Err(common_err(
                        CommonErrCode::PartitionError,
                        "partition key ordinal is out of range of the row key",
                    ));
                }
                let mut i: usize = 0;
                proof {
                    assert(parts@.skip(0) =~= parts@);
                }
                loop
                    invariant
                        i <= parts@.len(),
                        self.wf(),
                        self.scheme matches PartScheme::List {
                            parts: ps,
                            default_part_id: d,
                        } && ps@ == parts@ && d == *default_part_id,
                        spec_extract_ok(row_key@, self.ordinals@),
                        vals == spec_extracted(row_key@, self.ordinals@),
                        spec_list_lookup(vals, parts@, *default_part_id) == spec_list_lookup(
                            vals,
                            parts@.skip(i as int),
                            *default_part_id,
                        ),
                    decreases parts@.len() - i,
                {
                    if i == parts.len() {
                        proof {
                            assert(parts@.skip(i as int).len() == 0);
                        }
                        return match default_part_id {
                            Some(d) => Ok(*d),
                            None => Err(common_err(
                                CommonErrCode::PartitionError,
                                "row key matches no list partition and no default exists",
                            )),
                        };
                    }
                    proof {
                        assert(parts@.skip(i as int)[0] == parts@[i as int]);
                    }
                    if extracted_eq(row_key, &self.ordinals, &parts[i].values) {
                        return Ok(parts[i].part_id);
                    }
                    proof {
                        lemma_list_lookup_step(vals, parts@, *default_part_id, i as int);
                    }
                    i = i + 1;
                }
            },
        }
    }
}

} // verus!
