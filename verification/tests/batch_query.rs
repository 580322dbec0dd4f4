//! Batch planning, result flattening, and query fan-out.

use obkv::batch::{
    flatten_batch_results, BatchOp, ObTableBatchOperation, ObTableOperationType, TableOpResult,
};
use obkv::client::{ClientConfig, ClientIdentity, ObTableClient, RunningMode};
use obkv::error::{CommonErrCode, ResultCodes};
use obkv::location::{
    ObPartitionLevel, ObServerAddr, ObServerRole, ObServerStatus, PartitionLocation,
    ReplicaLocation,
};
use obkv::part_desc::{PartDesc, PartScheme};
use obkv::part_func_type::PartFuncType;
use obkv::query::{ObScanOrder, ObTableClientQueryImpl, ObTableEntityType};
use obkv::table_entry::{ObPartitionInfo, TableEntry};
use obkv::value::Value;

fn identity() -> ClientIdentity {
    ClientIdentity {
        param_url: "http://a/b?database=test".to_owned(),
        full_user_name: "user@tenant#cluster".to_owned(),
        user_name: "user".to_owned(),
        tenant_name: "tenant".to_owned(),
        cluster_name: "cluster".to_owned(),
        password: String::new(),
        database: "test".to_owned(),
        datasource_name: String::new(),
    }
}

fn active_leader(port: u32) -> ReplicaLocation {
    ReplicaLocation {
        addr: ObServerAddr {
            ip: "10.0.0.1".to_owned(),
            svr_port: port,
            sql_port: port + 1,
            priority: 0,
        },
        role: ObServerRole::Leader,
        status: ObServerStatus::Active,
        stop_time: 0,
    }
}

fn hash_entry(n: u64) -> TableEntry {
    let mut locations = Vec::new();
    for k in 0..n {
        locations.push((
            k as i64,
            PartitionLocation { replicas: vec![active_leader(9000 + k as u32)] },
        ));
    }
    TableEntry {
        table_id: 7,
        partition_num: n,
        partition_info: Some(ObPartitionInfo {
            level: ObPartitionLevel::One,
            first_part_desc: Some(PartDesc {
                part_func_type: PartFuncType::HASH,
                scheme: PartScheme::Hash { part_num: n },
                part_columns: vec!["c1".to_owned()],
                ordinals: Vec::new(),
            }),
            sub_part_desc: None,
        }),
        partition_entry: locations,
        table_location: Vec::new(),
        refresh_time_mills: 5,
        row_key_element: Vec::new(),
    }
}

/// A two-level partitioned entry: range scans over it are unsupported.
fn two_level_entry() -> TableEntry {
    let desc = |t| PartDesc {
        part_func_type: PartFuncType::HASH,
        scheme: PartScheme::Hash { part_num: t },
        part_columns: vec!["c1".to_owned()],
        ordinals: Vec::new(),
    };
    TableEntry {
        table_id: 8,
        partition_num: 4,
        partition_info: Some(ObPartitionInfo {
            level: ObPartitionLevel::Two,
            first_part_desc: Some(desc(2)),
            sub_part_desc: Some(desc(2)),
        }),
        partition_entry: Vec::new(),
        table_location: Vec::new(),
        refresh_time_mills: 5,
        row_key_element: Vec::new(),
    }
}

fn ready_client(entry: TableEntry) -> (ObTableClient, String) {
    let mut c = ObTableClient::new(identity(), ClientConfig::default(), RunningMode::Normal);
    c.init();
    // Register a backend handle for every partition leader the tests
    // route to, as the initial metadata load does.
    let root = TableEntry {
        table_id: 1,
        partition_num: 1,
        partition_info: None,
        partition_entry: Vec::new(),
        table_location: (0..8).map(|k| active_leader(9000 + k)).collect(),
        refresh_time_mills: 0,
        row_key_element: Vec::new(),
    };
    c.init_metadata(&root, 1);
    let table = "bt".to_owned();
    c.add_row_key_element(&table, vec!["c1".to_owned()]);
    c.refresh_table_entry(&table, entry).unwrap();
    (c, table)
}

fn op(v: i64) -> BatchOp {
    BatchOp {
        op_type: ObTableOperationType::Insert,
        row_keys: vec![Value::Int(v)],
        columns: vec!["c2".to_owned()],
        properties: vec![Value::String("p".to_owned())],
    }
}

#[test]
fn test_atomic_batch_spanning_partitions_is_rejected() {
    // An atomic batch whose rows route to two partitions fails with
    // OB_INVALID_PARTITION.
    let (mut c, table) = ready_client(hash_entry(2));
    let mut batch = ObTableBatchOperation::with_ops_num_raw(2);
    batch.add_op(op(0));
    batch.add_op(op(1));
    batch.set_atomic_op(true);
    assert!(batch.is_atomic_op());
    let err = c.plan_batch(&table, batch).unwrap_err();
    assert!(matches!(
        err.code(),
        CommonErrCode::ObException(ResultCodes::OB_INVALID_PARTITION)
    ));
}

#[test]
fn test_non_atomic_batch_buckets_preserve_order() {
    // A non-atomic batch spanning two partitions yields one sub-batch
    // per partition, each keeping its operations in submission order.
    let (mut c, table) = ready_client(hash_entry(2));
    let mut batch = ObTableBatchOperation::with_ops_num_raw(4);
    batch.add_op(op(0));
    batch.add_op(op(1));
    batch.add_op(op(2));
    batch.add_op(op(3));
    let plans = c.plan_batch(&table, batch).unwrap();
    assert_eq!(plans.len(), 2);
    assert_eq!(plans[0].part_id, 0);
    assert_eq!(plans[1].part_id, 1);
    let even: Vec<i64> = plans[0]
        .ops
        .iter()
        .map(|o| match &o.row_keys[0] {
            Value::Int(x) => *x,
            _ => panic!("integer key expected"),
        })
        .collect();
    let odd: Vec<i64> = plans[1]
        .ops
        .iter()
        .map(|o| match &o.row_keys[0] {
            Value::Int(x) => *x,
            _ => panic!("integer key expected"),
        })
        .collect();
    assert_eq!(even, vec![0, 2]);
    assert_eq!(odd, vec![1, 3]);
    assert_eq!(plans[0].handle.addr.svr_port, 9000);
    assert_eq!(plans[1].handle.addr.svr_port, 9001);
    assert!(!plans[0].atomic && !plans[1].atomic);
    let total: usize = plans.iter().map(|p| p.ops.len()).sum();
    assert_eq!(total, 4);
}

#[test]
fn test_single_partition_atomic_batch_is_fine() {
    let (mut c, table) = ready_client(hash_entry(2));
    let mut batch = ObTableBatchOperation::with_ops_num_raw(2);
    batch.add_op(op(0));
    batch.add_op(op(2));
    batch.set_atomic_op(true);
    let plans = c.plan_batch(&table, batch).unwrap();
    assert_eq!(plans.len(), 1);
    assert_eq!(plans[0].part_id, 0);
    assert_eq!(plans[0].ops.len(), 2);
    // The sub-batch is dispatched with the atomic flag set.
    assert!(plans[0].atomic);
}

#[test]
fn test_empty_batch_plans_to_nothing() {
    let (mut c, table) = ready_client(hash_entry(2));
    let batch = ObTableBatchOperation::with_ops_num_raw(0);
    let plans = c.plan_batch(&table, batch).unwrap();
    assert!(plans.is_empty());
}

#[test]
fn test_batch_on_uninitialized_client() {
    let mut c = ObTableClient::new(identity(), ClientConfig::default(), RunningMode::Normal);
    let batch = ObTableBatchOperation::with_ops_num_raw(0);
    let err = c.plan_batch(&"t".to_owned(), batch).unwrap_err();
    assert!(matches!(err.code(), CommonErrCode::NotInitialized));
}

#[test]
fn test_batch_helpers() {
    let mut batch = ObTableBatchOperation::with_ops_num_raw(3);
    batch.insert(
        vec![Value::Int(1)],
        vec!["c2".to_owned()],
        vec![Value::String("v".to_owned())],
    );
    batch.get(vec![Value::Int(1)], vec!["c2".to_owned()]);
    batch.delete(vec![Value::Int(1)]);
    assert_eq!(batch.ops.len(), 3);
    assert!(matches!(batch.ops[0].op_type, ObTableOperationType::Insert));
    assert!(matches!(batch.ops[1].op_type, ObTableOperationType::Get));
    assert!(matches!(batch.ops[2].op_type, ObTableOperationType::Del));
}

#[test]
fn test_flatten_preserves_bucket_order() {
    let r = |n: i64| TableOpResult::AffectedRows(n);
    let flat = flatten_batch_results(vec![vec![r(1), r(2)], vec![], vec![r(3)]]);
    let rows: Vec<i64> = flat
        .iter()
        .map(|x| match x {
            TableOpResult::AffectedRows(n) => *n,
            _ => panic!("affected rows expected"),
        })
        .collect();
    assert_eq!(rows, vec![1, 2, 3]);
}

#[test]
fn test_query_builder_accumulates() {
    let q = ObTableClientQueryImpl::new(&"qt".to_owned());
    assert_eq!(q.get_table_name(), "qt");
    let q = q
        .select(vec!["c2".to_owned()])
        .limit(Some(5), 10)
        .add_scan_range(vec![Value::Int(1)], true, vec![Value::Int(9)], false)
        .scan_order(false)
        .batch_size(100);
    assert_eq!(q.select_columns, vec!["c2".to_owned()]);
    assert_eq!(q.offset, 5);
    assert_eq!(q.limit, 10);
    assert_eq!(q.key_ranges.len(), 1);
    assert!(q.key_ranges[0].start_inclusive);
    assert!(!q.key_ranges[0].end_inclusive);
    assert_eq!(q.scan_order, ObScanOrder::Reverse);
    assert_eq!(q.batch_size, 100);
    let mut q = q;
    q.set_entity_type(ObTableEntityType::KV);
    assert_eq!(q.entity_type(), ObTableEntityType::KV);
    q.clear();
    assert_eq!(q.key_ranges.len(), 0);
}

#[test]
fn test_query_open_ended_ranges() {
    let q = ObTableClientQueryImpl::new(&"qt".to_owned())
        .add_scan_range_starts_with(vec![Value::Int(3), Value::Int(4)], true)
        .add_scan_range_ends_with(vec![Value::Int(9)], false);
    assert_eq!(q.key_ranges.len(), 2);
    assert!(matches!(q.key_ranges[0].end[0], Value::Max));
    assert!(matches!(q.key_ranges[0].end[1], Value::Max));
    assert!(matches!(q.key_ranges[1].start[0], Value::Min));
}

#[test]
fn test_plan_query_dedups_partitions() {
    // Two overlapping ranges over every partition still visit each
    // partition once.
    let (c, table) = {
        let (mut c, table) = ready_client(hash_entry(2));
        c.server_roster.reset(Vec::new());
        (c, table)
    };
    let q = ObTableClientQueryImpl::new(&table)
        .add_scan_range(vec![Value::Int(0)], true, vec![Value::Int(5)], true)
        .add_scan_range(vec![Value::Int(1)], true, vec![Value::Int(7)], true);
    let plan = c.plan_query(&q, 0).unwrap();
    assert_eq!(plan.len(), 2);
    let mut pids: Vec<i64> = plan.iter().map(|p| p.0).collect();
    pids.sort();
    assert_eq!(pids, vec![0, 1]);
}

#[test]
fn test_level_two_range_query_unsupported() {
    // A range query over a two-level partitioned table fails with a
    // PartitionError.
    let (c, table) = ready_client(two_level_entry());
    let q = ObTableClientQueryImpl::new(&table).add_scan_range(
        vec![Value::Int(0)],
        true,
        vec![Value::Int(5)],
        true,
    );
    let err = c.plan_query(&q, 0).unwrap_err();
    assert!(matches!(err.code(), CommonErrCode::PartitionError));
}

#[test]
fn test_query_without_ranges_is_malformed() {
    let (c, table) = ready_client(hash_entry(2));
    let q = ObTableClientQueryImpl::new(&table);
    let err = c.plan_query(&q, 0).unwrap_err();
    assert!(matches!(err.code(), CommonErrCode::PartitionError));
}

#[test]
fn test_get_tables_expands_ranges() {
    let (c, table) = ready_client(hash_entry(3));
    let pairs = c
        .get_tables(&table, &[Value::Int(0)], true, &[Value::Int(5)], true, false, 0)
        .unwrap();
    assert_eq!(pairs.len(), 3);
    assert_eq!(pairs[0].0, 0);
    assert_eq!(pairs[1].0, 1);
    assert_eq!(pairs[2].0, 2);
    assert_eq!(pairs[2].1.addr.svr_port, 9002);
}

#[test]
fn test_two_level_point_get_composes_id() {
    // A point get on a two-level table composes the two partition ids
    // into the wire id.
    let (mut c, table) = ready_client({
        let mut e = two_level_entry();
        // Register a location for the composed id of key 3: both levels
        // hash 3 % 2 == 1.
        let id = obkv::ob_part_constants::generate_part_id(1, 1);
        e.partition_entry = vec![(
            id,
            PartitionLocation { replicas: vec![active_leader(9055)] },
        )];
        e
    });
    let id = obkv::ob_part_constants::generate_part_id(1, 1);
    let (pid, h) = c.get_table(&table, &[Value::Int(3)], false, 0).unwrap();
    assert_eq!(pid, id);
    assert_eq!(h.addr.svr_port, 9055);
}

#[test]
fn test_level_two_query_message() {
    // The unsupported level-two range scan reports the exact message.
    let (c, table) = ready_client(two_level_entry());
    let q = ObTableClientQueryImpl::new(&table).add_scan_range(
        vec![Value::Int(0)],
        true,
        vec![Value::Int(5)],
        true,
    );
    let err = c.plan_query(&q, 0).unwrap_err();
    assert_eq!(err.message(), "Unsupported partition level two right now");
}

#[test]
fn test_atomic_flag_survives_retry_rebuild() {
    // The batch value itself keeps its flag across clones, as the outer
    // retry loop rebuilds each attempt from the original input.
    let mut batch = ObTableBatchOperation::with_ops_num_raw(1);
    batch.add_op(op(0));
    batch.set_atomic_op(true);
    let again = batch.clone();
    assert!(again.is_atomic_op());
    assert_eq!(again.ops.len(), 1);
}
