//! Row-key values.
//!
//! A row key is a tuple of `Value`s. The library compares values when it
//! matches list partitions and when it searches range-partition bounds;
//! `Min` and `Max` are the open endpoints used by scan ranges.

use core::cmp::Ordering;
use vstd::prelude::*;

verus! {

/// One column value of a row key.
#[derive(Clone, Debug)]
pub enum Value {
    /// SQL NULL.
    Null,
    /// Smaller than every other value; the open lower endpoint of a scan.
    Min,
    /// Greater than every other value; the open upper endpoint of a scan.
    Max,
    /// A signed integer column.
    Int(i64),
    /// A character column.
    String(String),
    /// A binary column.
    Bytes(Vec<u8>),
}

impl Value {
    /// The open upper endpoint of a scan range.
    pub fn get_max() -> (v: Value)
        ensures
            v == Value::Max,
    {
        Value::Max
    }

    /// The open lower endpoint of a scan range.
    pub fn get_min() -> (v: Value)
        ensures
            v == Value::Min,
    {
        Value::Min
    }

    pub open spec fn spec_is_null(self) -> bool {
        self is Null
    }

    pub fn is_null(&self) -> (b: bool)
        ensures
            b == self.spec_is_null(),
    {
        matches!(self, Value::Null)
    }
}

/// Equality of two values: same variant and, observably, the same content
/// (character and byte columns are compared by their contents).
pub open spec fn spec_value_eq(a: Value, b: Value) -> bool {
    match (a, b) {
        (Value::Null, Value::Null) => true,
        (Value::Min, Value::Min) => true,
        (Value::Max, Value::Max) => true,
        (Value::Int(x), Value::Int(y)) => x == y,
        (Value::String(x), Value::String(y)) => x@ == y@,
        (Value::Bytes(x), Value::Bytes(y)) => x@ == y@,
        _ => false,
    }
}

/// Lexicographic order of two byte strings, as `-1`, `0` or `1`.
pub open spec fn spec_lex_cmp_bytes(a: Seq<u8>, b: Seq<u8>) -> int
    decreases a.len(),
{
    if a.len() == 0 && b.len() == 0 {
        0
    } else if a.len() == 0 {
        -1
    } else if b.len() == 0 {
        1
    } else if a[0] < b[0] {
        -1
    } else if a[0] > b[0] {
        1
    } else {
        spec_lex_cmp_bytes(a.skip(1), b.skip(1))
    }
}

/// Lexicographic order of two character strings by code point.
pub open spec fn spec_lex_cmp_chars(a: Seq<char>, b: Seq<char>) -> int
    decreases a.len(),
{
    if a.len() == 0 && b.len() == 0 {
        0
    } else if a.len() == 0 {
        -1
    } else if b.len() == 0 {
        1
    } else if (a[0] as u32) < (b[0] as u32) {
        -1
    } else if (a[0] as u32) > (b[0] as u32) {
        1
    } else {
        spec_lex_cmp_chars(a.skip(1), b.skip(1))
    }
}

proof fn lemma_lex_cmp_bytes_step(a: Seq<u8>, b: Seq<u8>, i: int)
    requires
        0 <= i < a.len(),
        i < b.len(),
        a[i] == b[i],
    ensures
        spec_lex_cmp_bytes(a.skip(i), b.skip(i)) == spec_lex_cmp_bytes(
            a.skip(i + 1),
            b.skip(i + 1),
        ),
{
    let sa = a.skip(i);
    let sb = b.skip(i);
    assert(sa[0] == a[i]);
    assert(sb[0] == b[i]);
    assert(sa.skip(1) =~= a.skip(i + 1));
    assert(sb.skip(1) =~= b.skip(i + 1));
}

proof fn lemma_lex_cmp_chars_step(a: Seq<char>, b: Seq<char>, i: int)
    requires
        0 <= i < a.len(),
        i < b.len(),
        a[i] == b[i],
    ensures
        spec_lex_cmp_chars(a.skip(i), b.skip(i)) == spec_lex_cmp_chars(
            a.skip(i + 1),
            b.skip(i + 1),
        ),
{
    let sa = a.skip(i);
    let sb = b.skip(i);
    assert(sa[0] == a[i]);
    assert(sb[0] == b[i]);
    assert(sa.skip(1) =~= a.skip(i + 1));
    assert(sb.skip(1) =~= b.skip(i + 1));
}

/// The lexicographic order reports 0 exactly on equal sequences.
proof fn lemma_lex_cmp_bytes_zero(a: Seq<u8>, b: Seq<u8>)
    ensures
        (spec_lex_cmp_bytes(a, b) == 0) <==> (a == b),
    decreases a.len(),
{
    if a.len() == 0 && b.len() == 0 {
        assert(a =~= b);
    } else if a.len() == 0 || b.len() == 0 {
        assert(a.len() != b.len());
    } else if a[0] == b[0] {
        lemma_lex_cmp_bytes_zero(a.skip(1), b.skip(1));
        if spec_lex_cmp_bytes(a, b) == 0 {
            assert(a.skip(1) == b.skip(1));
            assert(a =~= b) by {
                assert forall|i: int| 0 <= i < a.len() implies a[i] == b[i] by {
                    if i > 0 {
                        assert(a.skip(1)[i - 1] == a[i]);
                        assert(b.skip(1)[i - 1] == b[i]);
                    }
                }
            };
        }
        if a == b {
            assert(a.skip(1) =~= b.skip(1));
        }
    }
}

/// The lexicographic order on characters reports 0 exactly on equal
/// sequences.
proof fn lemma_lex_cmp_chars_zero(a: Seq<char>, b: Seq<char>)
    ensures
        (spec_lex_cmp_chars(a, b) == 0) <==> (a == b),
    decreases a.len(),
{
    if a.len() == 0 && b.len() == 0 {
        assert(a =~= b);
    } else if a.len() == 0 || b.len() == 0 {
        assert(a.len() != b.len());
    } else if a[0] == b[0] {
        lemma_lex_cmp_chars_zero(a.skip(1), b.skip(1));
        if spec_lex_cmp_chars(a, b) == 0 {
            assert(a.skip(1) == b.skip(1));
            assert(a =~= b) by {
                assert forall|i: int| 0 <= i < a.len() implies a[i] == b[i] by {
                    if i > 0 {
                        assert(a.skip(1)[i - 1] == a[i]);
                        assert(b.skip(1)[i - 1] == b[i]);
                    }
                }
            };
        }
        if a == b {
            assert(a.skip(1) =~= b.skip(1));
        }
    } else {
        assert((a[0] as u32) != (b[0] as u32)) by {
            if a[0] as u32 == b[0] as u32 {
                vstd::utf8::char_u32_cast(a[0], a[0] as u32);
                vstd::utf8::char_u32_cast(b[0], b[0] as u32);
            }
        };
    }
}

/// Compares two byte strings lexicographically.
fn lex_cmp_bytes(a: &Vec<u8>, b: &Vec<u8>) -> (r: Ordering)
    ensures
        r is Less <==> spec_lex_cmp_bytes(a@, b@) == -1,
        r is Equal <==> spec_lex_cmp_bytes(a@, b@) == 0,
        r is Greater <==> spec_lex_cmp_bytes(a@, b@) == 1,
{
    let mut i: usize = 0;
    proof {
        assert(a@.skip(0) =~= a@);
        assert(b@.skip(0) =~= b@);
    }
    loop
        invariant
            i <= a.len(),
            i <= b.len(),
            spec_lex_cmp_bytes(a@, b@) == spec_lex_cmp_bytes(a@.skip(i as int), b@.skip(i as int)),
        decreases a.len() - i,
    {
        if i == a.len() && i == b.len() {
            assert(a@.skip(i as int).len() == 0 && b@.skip(i as int).len() == 0);
            return Ordering::Equal;
        } else if i == a.len() {
            assert(a@.skip(i as int).len() == 0 && b@.skip(i as int).len() > 0);
            return Ordering::Less;
        } else if i == b.len() {
            assert(b@.skip(i as int).len() == 0 && a@.skip(i as int).len() > 0);
            return Ordering::Greater;
        } else {
            let x = a[i];
            let y = b[i];
            assert(a@.skip(i as int)[0] == a@[i as int]);
            assert(b@.skip(i as int)[0] == b@[i as int]);
            if x < y {
                return Ordering::Less;
            } else if x > y {
                return Ordering::Greater;
            }
            proof {
                lemma_lex_cmp_bytes_step(a@, b@, i as int);
            }
            i = i + 1;
        }
    }
}

/// Compares two character strings lexicographically by code point.
fn lex_cmp_strings(a: &String, b: &String) -> (r: Ordering)
    ensures
        r is Less <==> spec_lex_cmp_chars(a@, b@) == -1,
        r is Equal <==> spec_lex_cmp_chars(a@, b@) == 0,
        r is Greater <==> spec_lex_cmp_chars(a@, b@) == 1,
{
    let sa = a.as_str();
    let sb = b.as_str();
    let la = sa.unicode_len();
    let lb = sb.unicode_len();
    let mut i: usize = 0;
    proof {
        assert(a@.skip(0) =~= a@);
        assert(b@.skip(0) =~= b@);
    }
    loop
        invariant
            i <= la,
            i <= lb,
            la == a@.len(),
            lb == b@.len(),
            sa@ == a@,
            sb@ == b@,
            spec_lex_cmp_chars(a@, b@) == spec_lex_cmp_chars(a@.skip(i as int), b@.skip(i as int)),
        decreases la - i,
    {
        if i == la && i == lb {
            assert(a@.skip(i as int).len() == 0 && b@.skip(i as int).len() == 0);
            return Ordering::Equal;
        } else if i == la {
            assert(a@.skip(i as int).len() == 0 && b@.skip(i as int).len() > 0);
            return Ordering::Less;
        } else if i == lb {
            assert(b@.skip(i as int).len() == 0 && a@.skip(i as int).len() > 0);
            return Ordering::Greater;
        } else {
            let x = sa.get_char(i);
            let y = sb.get_char(i);
            assert(a@.skip(i as int)[0] == a@[i as int]);
            assert(b@.skip(i as int)[0] == b@[i as int]);
            if (x as u32) < (y as u32) {
                return Ordering::Less;
            } else if (x as u32) > (y as u32) {
                return Ordering::Greater;
            }
            proof {
                assert(a@[i as int] == b@[i as int]);
                lemma_lex_cmp_chars_step(a@, b@, i as int);
            }
            i = i + 1;
        }
    }
}

/// The lexicographic order on bytes is transitive: a chain of two
/// non-greater comparisons yields a non-greater comparison, strictly so
/// when either link is strict.
proof fn lemma_lex_cmp_bytes_trans(a: Seq<u8>, b: Seq<u8>, c: Seq<u8>)
    requires
        spec_lex_cmp_bytes(a, b) != 1,
        spec_lex_cmp_bytes(b, c) != 1,
    ensures
        spec_lex_cmp_bytes(a, c) != 1,
        spec_lex_cmp_bytes(a, b) == -1 || spec_lex_cmp_bytes(b, c) == -1 ==> spec_lex_cmp_bytes(
            a,
            c,
        ) == -1,
    decreases a.len() + b.len() + c.len(),
{
    if a.len() == 0 {
        if c.len() > 0 {
        }
    } else {
        if b.len() == 0 {
        } else if c.len() == 0 {
        } else {
            if a[0] == b[0] && b[0] == c[0] {
                lemma_lex_cmp_bytes_trans(a.skip(1), b.skip(1), c.skip(1));
            }
        }
    }
}

/// The lexicographic order on characters is transitive, strictly so when
/// either link is strict.
proof fn lemma_lex_cmp_chars_trans(a: Seq<char>, b: Seq<char>, c: Seq<char>)
    requires
        spec_lex_cmp_chars(a, b) != 1,
        spec_lex_cmp_chars(b, c) != 1,
    ensures
        spec_lex_cmp_chars(a, c) != 1,
        spec_lex_cmp_chars(a, b) == -1 || spec_lex_cmp_chars(b, c) == -1 ==> spec_lex_cmp_chars(
            a,
            c,
        ) == -1,
    decreases a.len() + b.len() + c.len(),
{
    if a.len() == 0 {
        if c.len() > 0 {
        }
    } else {
        if b.len() == 0 {
        } else if c.len() == 0 {
        } else {
            if (a[0] as u32) == (b[0] as u32) && (b[0] as u32) == (c[0] as u32) {
                lemma_lex_cmp_chars_trans(a.skip(1), b.skip(1), c.skip(1));
            }
        }
    }
}

/// Order of two values where one exists: `Min` sorts below everything,
/// `Max` above everything, and two values of the same column type compare
/// by their contents. `Null` and values of different column types are
/// incomparable.
pub open spec fn spec_value_cmp(a: Value, b: Value) -> Option<int> {
    match (a, b) {
        (Value::Min, Value::Min) => Some(0int),
        (Value::Max, Value::Max) => Some(0int),
        (Value::Min, _) => Some(-1int),
        (_, Value::Min) => Some(1int),
        (Value::Max, _) => Some(1int),
        (_, Value::Max) => Some(-1int),
        (Value::Int(x), Value::Int(y)) => if x < y {
            Some(-1int)
        } else if x > y {
            Some(1int)
        } else {
            Some(0int)
        },
        (Value::String(x), Value::String(y)) => Some(spec_lex_cmp_chars(x@, y@)),
        (Value::Bytes(x), Value::Bytes(y)) => Some(spec_lex_cmp_bytes(x@, y@)),
        _ => None,
    }
}

/// Compares two values; `None` means the pair is incomparable (a `Null`,
/// or two different column types).
pub fn value_cmp(a: &Value, b: &Value) -> (r: Option<Ordering>)
    ensures
        r is None <==> spec_value_cmp(*a, *b) is None,
        r matches Some(o) ==> {
            &&& (o is Less <==> spec_value_cmp(*a, *b) == Some(-1int))
            &&& (o is Equal <==> spec_value_cmp(*a, *b) == Some(0int))
            &&& (o is Greater <==> spec_value_cmp(*a, *b) == Some(1int))
        },
{
    match (a, b) {
        (Value::Min, Value::Min) => Some(Ordering::Equal),
        (Value::Max, Value::Max) => Some(Ordering::Equal),
        (Value::Min, _) => Some(Ordering::Less),
        (_, Value::Min) => Some(Ordering::Greater),
        (Value::Max, _) => Some(Ordering::Greater),
        (_, Value::Max) => Some(Ordering::Less),
        (Value::Int(x), Value::Int(y)) => {
            if x < y {
                Some(Ordering::Less)
            } else if x > y {
                Some(Ordering::Greater)
            } else {
                Some(Ordering::Equal)
            }
        },
        (Value::String(x), Value::String(y)) => Some(lex_cmp_strings(x, y)),
        (Value::Bytes(x), Value::Bytes(y)) => Some(lex_cmp_bytes(x, y)),
        _ => None,
    }
}

/// Tests two values for equality.
pub fn value_eq(a: &Value, b: &Value) -> (r: bool)
    ensures
        r == spec_value_eq(*a, *b),
{
    match (a, b) {
        (Value::Null, Value::Null) => true,
        (Value::Min, Value::Min) => true,
        (Value::Max, Value::Max) => true,
        (Value::Int(x), Value::Int(y)) => *x == *y,
        (Value::String(x), Value::String(y)) => {
            proof {
                lemma_lex_cmp_chars_zero(x@, y@);
            }
            matches!(lex_cmp_strings(x, y), Ordering::Equal)
        },
        (Value::Bytes(x), Value::Bytes(y)) => {
            proof {
                lemma_lex_cmp_bytes_zero(x@, y@);
            }
            matches!(lex_cmp_bytes(x, y), Ordering::Equal)
        },
        _ => false,
    }
}

/// A byte comparison only ever reports -1, 0 or 1.
proof fn lemma_lex_cmp_bytes_range(a: Seq<u8>, b: Seq<u8>)
    ensures
        -1 <= spec_lex_cmp_bytes(a, b) <= 1,
    decreases a.len(),
{
    if a.len() > 0 && b.len() > 0 && a[0] == b[0] {
        lemma_lex_cmp_bytes_range(a.skip(1), b.skip(1));
    }
}

/// A character comparison only ever reports -1, 0 or 1.
proof fn lemma_lex_cmp_chars_range(a: Seq<char>, b: Seq<char>)
    ensures
        -1 <= spec_lex_cmp_chars(a, b) <= 1,
    decreases a.len(),
{
    if a.len() > 0 && b.len() > 0 && (a[0] as u32) == (b[0] as u32) {
        lemma_lex_cmp_chars_range(a.skip(1), b.skip(1));
    }
}

/// A value comparison only ever reports -1, 0 or 1.
pub proof fn lemma_value_cmp_range(a: Value, b: Value)
    ensures
        spec_value_cmp(a, b) matches Some(x) ==> -1 <= x <= 1,
{
    match (a, b) {
        (Value::String(x), Value::String(y)) => {
            lemma_lex_cmp_chars_range(x@, y@);
        },
        (Value::Bytes(x), Value::Bytes(y)) => {
            lemma_lex_cmp_bytes_range(x@, y@);
        },
        _ => {},
    }
}

/// The order on values is transitive: a non-greater link followed by a
/// strict link gives a strict comparison.
pub proof fn lemma_value_cmp_trans(a: Value, b: Value, c: Value)
    requires
        spec_value_cmp(a, b) matches Some(x) && x <= 0,
        spec_value_cmp(b, c) == Some(-1int),
    ensures
        spec_value_cmp(a, c) == Some(-1int),
{
    match (a, b, c) {
        (Value::String(x), Value::String(y), Value::String(z)) => {
            lemma_lex_cmp_chars_trans(x@, y@, z@);
        },
        (Value::Bytes(x), Value::Bytes(y), Value::Bytes(z)) => {
            lemma_lex_cmp_bytes_trans(x@, y@, z@);
        },
        _ => {},
    }
}

/// A value that compares equal to another compares the same way against
/// every third value.
pub proof fn lemma_value_cmp_zero_congruent(a: Value, b: Value, c: Value)
    requires
        spec_value_cmp(a, b) == Some(0int),
    ensures
        spec_value_cmp(a, c) == spec_value_cmp(b, c),
{
    match (a, b) {
        (Value::String(x), Value::String(y)) => {
            lemma_lex_cmp_chars_zero(x@, y@);
        },
        (Value::Bytes(x), Value::Bytes(y)) => {
            lemma_lex_cmp_bytes_zero(x@, y@);
        },
        _ => {},
    }
}

/// Lexicographic order of two equally long value tuples; `None` when the
/// lengths differ or an incomparable pair decides first.
pub open spec fn spec_tuple_cmp(a: Seq<Value>, b: Seq<Value>) -> Option<int>
    decreases a.len(),
{
    if a.len() != b.len() {
        None
    } else if a.len() == 0 {
        Some(0int)
    } else {
        match spec_value_cmp(a[0], b[0]) {
            Option::None => None,
            Option::Some(c) => if c != 0 {
                Some(c)
            } else {
                spec_tuple_cmp(a.skip(1), b.skip(1))
            },
        }
    }
}

/// The order on tuples is transitive: a non-greater link followed by a
/// strict link gives a strict comparison.
pub proof fn lemma_tuple_cmp_trans(a: Seq<Value>, b: Seq<Value>, c: Seq<Value>)
    requires
        spec_tuple_cmp(a, b) matches Some(x) && x <= 0,
        spec_tuple_cmp(b, c) == Some(-1int),
    ensures
        spec_tuple_cmp(a, c) == Some(-1int),
    decreases a.len(),
{
    if a.len() == 0 {
    } else {
        let cab = spec_value_cmp(a[0], b[0]);
        let cbc = spec_value_cmp(b[0], c[0]);
        lemma_value_cmp_range(a[0], b[0]);
        lemma_value_cmp_range(b[0], c[0]);
        if cab == Some(0int) {
            lemma_value_cmp_zero_congruent(a[0], b[0], c[0]);
            if cbc == Some(0int) {
                lemma_tuple_cmp_trans(a.skip(1), b.skip(1), c.skip(1));
            }
        } else {
            if cbc == Some(0int) {
                lemma_value_cmp_zero_congruent(b[0], c[0], a[0]);
                lemma_value_cmp_flip(a[0], b[0]);
                lemma_value_cmp_flip(b[0], c[0]);
                lemma_value_cmp_flip(a[0], c[0]);
            } else {
                lemma_value_cmp_trans(a[0], b[0], c[0]);
            }
        }
    }
}

/// Swapping the operands of a value comparison negates its result.
pub proof fn lemma_value_cmp_flip(a: Value, b: Value)
    ensures
        spec_value_cmp(b, a) == match spec_value_cmp(a, b) {
            Option::None => Option::<int>::None,
            Option::Some(c) => Option::Some(-c),
        },
{
    match (a, b) {
        (Value::String(x), Value::String(y)) => {
            lemma_lex_cmp_chars_flip(x@, y@);
        },
        (Value::Bytes(x), Value::Bytes(y)) => {
            lemma_lex_cmp_bytes_flip(x@, y@);
        },
        _ => {},
    }
}

/// Swapping the operands of a byte comparison negates its result.
proof fn lemma_lex_cmp_bytes_flip(a: Seq<u8>, b: Seq<u8>)
    ensures
        spec_lex_cmp_bytes(b, a) == -spec_lex_cmp_bytes(a, b),
    decreases a.len() + b.len(),
{
    if a.len() > 0 && b.len() > 0 && a[0] == b[0] {
        lemma_lex_cmp_bytes_flip(a.skip(1), b.skip(1));
    }
}

/// Swapping the operands of a character comparison negates its result.
proof fn lemma_lex_cmp_chars_flip(a: Seq<char>, b: Seq<char>)
    ensures
        spec_lex_cmp_chars(b, a) == -spec_lex_cmp_chars(a, b),
    decreases a.len() + b.len(),
{
    if a.len() > 0 && b.len() > 0 && (a[0] as u32) == (b[0] as u32) {
        lemma_lex_cmp_chars_flip(a.skip(1), b.skip(1));
    }
}

/// A tuple comparison only ever reports -1, 0 or 1.
pub proof fn lemma_tuple_cmp_range(a: Seq<Value>, b: Seq<Value>)
    ensures
        spec_tuple_cmp(a, b) matches Some(x) ==> -1 <= x <= 1,
    decreases a.len(),
{
    if a.len() == b.len() && a.len() > 0 {
        lemma_value_cmp_range(a[0], b[0]);
        lemma_tuple_cmp_range(a.skip(1), b.skip(1));
    }
}

/// Values equal under `spec_value_eq` compare the same way against every
/// third value.
pub proof fn lemma_value_eq_cmp_congruent(a: Value, b: Value, c: Value)
    requires
        spec_value_eq(a, b),
    ensures
        spec_value_cmp(a, c) == spec_value_cmp(b, c),
{
}

/// Values equal under `spec_value_eq` are equal to the same values.
pub proof fn lemma_value_eq_congruent(a: Value, b: Value, c: Value)
    requires
        spec_value_eq(a, b),
    ensures
        spec_value_eq(a, c) == spec_value_eq(b, c),
{
}

/// Stepping past an equal head pair leaves a tuple comparison unchanged.
pub proof fn lemma_tuple_cmp_step(a: Seq<Value>, b: Seq<Value>, i: int)
    requires
        a.len() == b.len(),
        0 <= i < a.len(),
        spec_value_cmp(a[i], b[i]) == Some(0int),
    ensures
        spec_tuple_cmp(a.skip(i), b.skip(i)) == spec_tuple_cmp(a.skip(i + 1), b.skip(i + 1)),
{
    let sa = a.skip(i);
    let sb = b.skip(i);
    assert(sa[0] == a[i]);
    assert(sb[0] == b[i]);
    assert(sa.skip(1) =~= a.skip(i + 1));
    assert(sb.skip(1) =~= b.skip(i + 1));
}

/// Compares two value tuples lexicographically; `None` when the lengths
/// differ or an incomparable pair decides first.
pub fn tuple_cmp(a: &[Value], b: &[Value]) -> (r: Option<Ordering>)
    ensures
        r is None <==> spec_tuple_cmp(a@, b@) is None,
        r matches Some(o) ==> {
            &&& (o is Less <==> spec_tuple_cmp(a@, b@) == Some(-1int))
            &&& (o is Equal <==> spec_tuple_cmp(a@, b@) == Some(0int))
            &&& (o is Greater <==> spec_tuple_cmp(a@, b@) == Some(1int))
        },
{
    if a.len() != b.len() {
        return None;
    }
    let mut i: usize = 0;
    proof {
        assert(a@.skip(0) =~= a@);
        assert(b@.skip(0) =~= b@);
    }
    loop
        invariant
            i <= a@.len(),
            a@.len() == b@.len(),
            spec_tuple_cmp(a@, b@) == spec_tuple_cmp(a@.skip(i as int), b@.skip(i as int)),
        decreases a@.len() - i,
    {
        if i == a.len() {
            proof {
                assert(a@.skip(i as int).len() == 0);
                assert(b@.skip(i as int).len() == 0);
            }
            return Some(Ordering::Equal);
        }
        assert(a@.skip(i as int)[0] == a@[i as int]);
        assert(b@.skip(i as int)[0] == b@[i as int]);
        match value_cmp(&a[i], &b[i]) {
            Option::None => {
                return None;
            },
            Option::Some(Ordering::Less) => {
                return Some(Ordering::Less);
            },
            Option::Some(Ordering::Greater) => {
                return Some(Ordering::Greater);
            },
            Option::Some(Ordering::Equal) => {
                proof {
                    lemma_tuple_cmp_step(a@, b@, i as int);
                }
                i = i + 1;
            },
        }
    }
}

/// Equality of two row-key tuples, element by element.
pub open spec fn spec_row_key_eq(a: Seq<Value>, b: Seq<Value>) -> bool {
    a.len() == b.len() && forall|i: int| 0 <= i < a.len() ==> spec_value_eq(a[i], b[i])
}

/// Tests two row-key tuples for equality.
pub fn row_key_eq(a: &[Value], b: &[Value]) -> (r: bool)
    ensures
        r == spec_row_key_eq(a@, b@),
{
    if a.len() != b.len() {
        return false;
    }
    let mut i: usize = 0;
    while i < a.len()
        invariant
            i <= a.len(),
            a@.len() == b@.len(),
            forall|j: int| 0 <= j < i ==> spec_value_eq(a@[j], b@[j]),
        decreases a.len() - i,
    {
        if !value_eq(&a[i], &b[i]) {
            return false;
        }
        i = i + 1;
    }
    true
}

/// True when some element of the row key is `Null`.
pub open spec fn spec_row_key_has_null(k: Seq<Value>) -> bool {
    exists|i: int| 0 <= i < k.len() && k[i] is Null
}

/// Tests whether a row key contains a `Null` element.
pub fn row_key_has_null(k: &[Value]) -> (r: bool)
    ensures
        r == spec_row_key_has_null(k@),
{
    let mut i: usize = 0;
    while i < k.len()
        invariant
            i <= k.len(),
            forall|j: int| 0 <= j < i ==> !(k@[j] is Null),
        decreases k.len() - i,
    {
        if k[i].is_null() {
            return true;
        }
        i = i + 1;
    }
    false
}

} // verus!
