//! Partition resolution: function kinds, the id codec, and the
//! per-scheme descriptors.

use obkv::ob_part_constants::{extract_first_part_id, extract_sub_part_id, generate_part_id};
use obkv::part_desc::{ListPartEntry, PartDesc, PartScheme, RangePartEntry};
use obkv::part_func_type::PartFuncType;
use obkv::value::{row_key_eq, row_key_has_null, tuple_cmp, value_cmp, value_eq, Value};
use std::cmp::Ordering;

fn hash_desc(part_num: u64) -> PartDesc {
    PartDesc {
        part_func_type: PartFuncType::HASH,
        scheme: PartScheme::Hash { part_num },
        part_columns: vec!["c1".to_owned()],
        ordinals: vec![0],
    }
}

#[test]
fn test_part_func_type_from_i32() {
    assert_eq!(PartFuncType::from_i32(0), PartFuncType::HASH);
    assert_eq!(PartFuncType::from_i32(1), PartFuncType::KEY);
    assert_eq!(PartFuncType::from_i32(3), PartFuncType::RANGE);
    assert_eq!(PartFuncType::from_i32(5), PartFuncType::LIST);
    assert_eq!(PartFuncType::from_i32(8), PartFuncType::HashV2);
    assert_eq!(PartFuncType::from_i32(9), PartFuncType::KeyV3);
    assert_eq!(PartFuncType::from_i32(-1), PartFuncType::UNKNOWN);
    assert_eq!(PartFuncType::from_i32(42), PartFuncType::UNKNOWN);
}

#[test]
fn test_part_func_type_classification() {
    assert!(PartFuncType::HASH.is_hash_part());
    assert!(PartFuncType::HashV2.is_hash_part());
    assert!(!PartFuncType::KEY.is_hash_part());
    assert!(PartFuncType::KeyImplicit.is_key_part());
    assert!(PartFuncType::KeyV2.is_key_part());
    assert!(PartFuncType::KeyV3.is_key_part());
    assert!(!PartFuncType::KEY.is_key_part());
    assert!(PartFuncType::RANGE.is_range_part());
    assert!(PartFuncType::RangeColumns.is_range_part());
    assert!(PartFuncType::LIST.is_list_part());
    assert!(PartFuncType::ListColumns.is_list_part());
    assert!(!PartFuncType::UNKNOWN.is_hash_part());
}

#[test]
fn test_part_id_codec_round_trip() {
    // Two-level partition id encoding round-trips.
    let cases = [(0i64, 0i64), (1, 2), (7, 0), (0x0FFF_FFFF, 0x0FFF_FFFF), (123, 45678)];
    for (i1, i2) in cases {
        let id = generate_part_id(i1, i2);
        assert_eq!(extract_first_part_id(id), i1);
        assert_eq!(extract_sub_part_id(id), i2);
        assert!(id != 0);
        assert!(id > 0);
    }
}

#[test]
fn test_part_id_codec_exact_value() {
    // (first << 32) | sub | (1 << 28) | (1 << 60), by hand for (1, 2).
    let id = generate_part_id(1, 2);
    assert_eq!(id, (1i64 << 32) | 2 | (1i64 << 28) | (1i64 << 60));
}

#[test]
fn test_hash_part_id() {
    let d = hash_desc(5);
    // A single non-negative integer column hashes to itself.
    assert_eq!(d.get_part_id(&[Value::Int(0)]).unwrap(), 0);
    assert_eq!(d.get_part_id(&[Value::Int(7)]).unwrap(), 2);
    assert_eq!(d.get_part_id(&[Value::Int(12)]).unwrap(), 2);
    // A negative value is reinterpreted as unsigned before the modulo:
    // -1 becomes 2^64 - 1, and (2^64 - 1) % 5 == 0.
    assert_eq!(d.get_part_id(&[Value::Int(-1)]).unwrap(), 0);
}

#[test]
fn test_hash_part_id_rejects_null() {
    let d = hash_desc(5);
    let err = d.get_part_id(&[Value::Null]).unwrap_err();
    assert!(matches!(err.code(), obkv::error::CommonErrCode::PartitionError));
}

#[test]
fn test_hash_part_id_rejects_missing_column() {
    let d = PartDesc {
        part_func_type: PartFuncType::HASH,
        scheme: PartScheme::Hash { part_num: 5 },
        part_columns: vec!["c2".to_owned()],
        ordinals: vec![1],
    };
    let err = d.get_part_id(&[Value::Int(3)]).unwrap_err();
    assert!(matches!(err.code(), obkv::error::CommonErrCode::PartitionError));
}

#[test]
fn test_key_part_id_depends_on_content() {
    let d = PartDesc {
        part_func_type: PartFuncType::KeyV2,
        scheme: PartScheme::Key { part_num: 1024 },
        part_columns: vec!["c1".to_owned()],
        ordinals: vec![0],
    };
    let a = d.get_part_id(&[Value::String("foo".to_owned())]).unwrap();
    let b = d.get_part_id(&[Value::String("foo".to_owned())]).unwrap();
    let c = d.get_part_id(&[Value::String("bar".to_owned())]).unwrap();
    // Same content, same partition; the hash reads the characters.
    assert_eq!(a, b);
    // The rolling hash h = h * 31 + code point: "foo" folds to 101574
    // and "bar" to 97299, so modulo 1024 they land on 198 and 19.
    assert_eq!(a, 198);
    assert_eq!(c, 19);
    // A single character maps to its code point: "A" is 65.
    let e = d.get_part_id(&[Value::String("A".to_owned())]).unwrap();
    assert_eq!(e, 65);
    // Bytes hash the same way over their raw values.
    let f = d.get_part_id(&[Value::Bytes(vec![65u8])]).unwrap();
    assert_eq!(f, 65);
}

fn range_desc() -> PartDesc {
    PartDesc {
        part_func_type: PartFuncType::RANGE,
        scheme: PartScheme::Range {
            parts: vec![
                RangePartEntry { upper_bound: vec![Value::Int(10)], part_id: 0 },
                RangePartEntry { upper_bound: vec![Value::Int(20)], part_id: 1 },
                RangePartEntry { upper_bound: vec![Value::Max], part_id: 2 },
            ],
        },
        part_columns: vec!["c1".to_owned()],
        ordinals: vec![0],
    }
}

#[test]
fn test_range_part_id_binary_bounds() {
    let d = range_desc();
    assert_eq!(d.get_part_id(&[Value::Int(-5)]).unwrap(), 0);
    assert_eq!(d.get_part_id(&[Value::Int(9)]).unwrap(), 0);
    // Bounds are exclusive: the bound value itself falls in the next
    // partition.
    assert_eq!(d.get_part_id(&[Value::Int(10)]).unwrap(), 1);
    assert_eq!(d.get_part_id(&[Value::Int(19)]).unwrap(), 1);
    assert_eq!(d.get_part_id(&[Value::Int(20)]).unwrap(), 2);
    assert_eq!(d.get_part_id(&[Value::Int(1000000)]).unwrap(), 2);
}

#[test]
fn test_range_part_id_rejects_null() {
    let d = range_desc();
    let err = d.get_part_id(&[Value::Null]).unwrap_err();
    assert!(matches!(err.code(), obkv::error::CommonErrCode::PartitionError));
}

#[test]
fn test_range_part_ids_cover_endpoints() {
    // The expansion of [12, 25] visits partitions 1 and 2, which contain
    // the two endpoints.
    let d = range_desc();
    let ids = d
        .get_part_ids(&[Value::Int(12)], true, &[Value::Int(25)], true)
        .unwrap();
    assert_eq!(ids, vec![1, 2]);
    let p_start = d.get_part_id(&[Value::Int(12)]).unwrap();
    let p_end = d.get_part_id(&[Value::Int(25)]).unwrap();
    assert!(ids.contains(&p_start));
    assert!(ids.contains(&p_end));
}

#[test]
fn test_range_part_ids_exclusive_end_at_bound() {
    // [5, 10) stays inside partition 0: the exclusive end at the bound
    // does not enter partition 1.
    let d = range_desc();
    let ids = d
        .get_part_ids(&[Value::Int(5)], true, &[Value::Int(10)], false)
        .unwrap();
    assert_eq!(ids, vec![0]);
    // With the end inclusive, partition 1 joins in.
    let ids2 = d
        .get_part_ids(&[Value::Int(5)], true, &[Value::Int(10)], true)
        .unwrap();
    assert_eq!(ids2, vec![0, 1]);
}

#[test]
fn test_hash_part_ids_point_and_all() {
    let d = hash_desc(4);
    // Equal endpoints expand to the single partition of the point.
    let ids = d
        .get_part_ids(&[Value::Int(6)], true, &[Value::Int(6)], true)
        .unwrap();
    assert_eq!(ids, vec![2]);
    // Different endpoints expand to every partition.
    let ids = d
        .get_part_ids(&[Value::Int(1)], true, &[Value::Int(6)], true)
        .unwrap();
    assert_eq!(ids, vec![0, 1, 2, 3]);
}

#[test]
fn test_list_part_id_default() {
    let d = PartDesc {
        part_func_type: PartFuncType::LIST,
        scheme: PartScheme::List {
            parts: vec![
                ListPartEntry { values: vec![Value::Int(1)], part_id: 10 },
                ListPartEntry { values: vec![Value::Int(2)], part_id: 11 },
            ],
            default_part_id: Some(99),
        },
        part_columns: vec!["c1".to_owned()],
        ordinals: vec![0],
    };
    assert_eq!(d.get_part_id(&[Value::Int(1)]).unwrap(), 10);
    assert_eq!(d.get_part_id(&[Value::Int(2)]).unwrap(), 11);
    // An unmatched value, and a NULL, go to the default partition.
    assert_eq!(d.get_part_id(&[Value::Int(3)]).unwrap(), 99);
    assert_eq!(d.get_part_id(&[Value::Null]).unwrap(), 99);
    // The expansion of any range lists every partition and the default.
    let ids = d
        .get_part_ids(&[Value::Int(1)], true, &[Value::Int(3)], true)
        .unwrap();
    assert_eq!(ids, vec![10, 11, 99]);
}

#[test]
fn test_list_part_id_no_default() {
    let d = PartDesc {
        part_func_type: PartFuncType::ListColumns,
        scheme: PartScheme::List {
            parts: vec![ListPartEntry { values: vec![Value::Int(1)], part_id: 10 }],
            default_part_id: None,
        },
        part_columns: vec!["c1".to_owned()],
        ordinals: vec![0],
    };
    let err = d.get_part_id(&[Value::Int(7)]).unwrap_err();
    assert!(matches!(err.code(), obkv::error::CommonErrCode::PartitionError));
}

#[test]
fn test_value_comparisons() {
    assert_eq!(value_cmp(&Value::Int(1), &Value::Int(2)), Some(Ordering::Less));
    assert_eq!(value_cmp(&Value::Int(2), &Value::Int(2)), Some(Ordering::Equal));
    assert_eq!(value_cmp(&Value::Min, &Value::Int(-100)), Some(Ordering::Less));
    assert_eq!(value_cmp(&Value::Max, &Value::Int(100)), Some(Ordering::Greater));
    assert_eq!(
        value_cmp(&Value::String("ab".to_owned()), &Value::String("b".to_owned())),
        Some(Ordering::Less)
    );
    assert_eq!(
        value_cmp(&Value::Bytes(vec![1, 2]), &Value::Bytes(vec![1, 2, 3])),
        Some(Ordering::Less)
    );
    // Null and cross-type pairs are incomparable.
    assert_eq!(value_cmp(&Value::Null, &Value::Int(1)), None);
    assert_eq!(value_cmp(&Value::Int(1), &Value::String("1".to_owned())), None);

    assert!(value_eq(&Value::String("x".to_owned()), &Value::String("x".to_owned())));
    assert!(!value_eq(&Value::String("x".to_owned()), &Value::String("y".to_owned())));
    assert!(value_eq(&Value::Bytes(vec![9]), &Value::Bytes(vec![9])));

    assert_eq!(
        tuple_cmp(&[Value::Int(1), Value::Int(5)], &[Value::Int(1), Value::Int(7)]),
        Some(Ordering::Less)
    );
    assert!(row_key_eq(&[Value::Int(1)], &[Value::Int(1)]));
    assert!(!row_key_eq(&[Value::Int(1)], &[Value::Int(2)]));
    assert!(row_key_has_null(&[Value::Int(1), Value::Null]));
    assert!(!row_key_has_null(&[Value::Int(1)]));
}
