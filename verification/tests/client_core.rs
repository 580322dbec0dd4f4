//! The client core: lifecycle, routing, metadata reconciliation, the
//! refresh lock, and the failure counters.

use obkv::client::{
    BackendHandle, ClientConfig, ClientIdentity, FailurePlan, ObTableClient, RefreshBegin,
    RunningMode, TableRecord,
};
use obkv::error::{CommonErrCode, Error, ResultCodes};
use obkv::location::{
    ObPartitionLevel, ObServerAddr, ObServerRole, ObServerStatus, PartitionLocation,
    ReplicaLocation,
};
use obkv::part_desc::{PartDesc, PartScheme};
use obkv::part_func_type::PartFuncType;
use obkv::table_entry::{ObPartitionInfo, TableEntry};
use obkv::value::Value;

fn identity() -> ClientIdentity {
    ClientIdentity {
        param_url: "http://a/b?database=test".to_owned(),
        full_user_name: "user@tenant#cluster".to_owned(),
        user_name: "user".to_owned(),
        tenant_name: "tenant".to_owned(),
        cluster_name: "cluster".to_owned(),
        password: String::new(),
        database: "test".to_owned(),
        datasource_name: String::new(),
    }
}

fn client() -> ObTableClient {
    ObTableClient::new(identity(), ClientConfig::default(), RunningMode::Normal)
}

fn addr(ip: &str, port: u32) -> ObServerAddr {
    ObServerAddr { ip: ip.to_owned(), svr_port: port, sql_port: port + 1, priority: 0 }
}

fn active_leader(ip: &str, port: u32) -> ReplicaLocation {
    ReplicaLocation {
        addr: addr(ip, port),
        role: ObServerRole::Leader,
        status: ObServerStatus::Active,
        stop_time: 0,
    }
}

fn root_entry(replicas: Vec<ReplicaLocation>) -> TableEntry {
    TableEntry {
        table_id: 1,
        partition_num: 1,
        partition_info: None,
        partition_entry: Vec::new(),
        table_location: replicas,
        refresh_time_mills: 0,
        row_key_element: Vec::new(),
    }
}

/// A hash-partitioned entry with `n` partitions, the leader of partition
/// `k` living at port `9000 + k`.
fn hash_entry(n: u64) -> TableEntry {
    let mut locations = Vec::new();
    for k in 0..n {
        locations.push((
            k as i64,
            PartitionLocation { replicas: vec![active_leader("10.0.0.1", 9000 + k as u32)] },
        ));
    }
    TableEntry {
        table_id: 7,
        partition_num: n,
        partition_info: Some(ObPartitionInfo {
            level: ObPartitionLevel::One,
            first_part_desc: Some(PartDesc {
                part_func_type: PartFuncType::HASH,
                scheme: PartScheme::Hash { part_num: n },
                part_columns: vec!["c1".to_owned()],
                ordinals: Vec::new(),
            }),
            sub_part_desc: None,
        }),
        partition_entry: locations,
        table_location: Vec::new(),
        refresh_time_mills: 5,
        row_key_element: Vec::new(),
    }
}

#[test]
fn test_lifecycle_and_status() {
    let mut c = client();
    assert!(!c.is_initialized());
    assert!(!c.is_closed());
    assert_eq!(c.running_mode(), RunningMode::Normal);
    let err = c.check_status().unwrap_err();
    assert!(matches!(err.code(), CommonErrCode::NotInitialized));
    assert!(!c.init());
    assert!(c.init());
    assert!(c.is_initialized());
    c.check_status().unwrap();
    c.close();
    assert!(c.is_closed());
    let err = c.check_status().unwrap_err();
    assert!(matches!(err.code(), CommonErrCode::AlreadyClosed));
}

#[test]
fn test_get_table_routes_by_partition_id() {
    // get_table's partition id equals the resolver's answer for the
    // cached entry, and the handle addresses that partition's leader.
    let mut c = client();
    c.init();
    let table = "t1".to_owned();
    c.add_row_key_element(&table, vec!["c1".to_owned()]);
    c.refresh_table_entry(&table, hash_entry(4)).unwrap();
    let (pid, h) = c.get_table(&table, &[Value::Int(6)], false, 0).unwrap();
    assert_eq!(pid, 2);
    assert_eq!(h.addr.svr_port, 9002);
    let (pid, h) = c.get_table(&table, &[Value::Int(5)], false, 0).unwrap();
    assert_eq!(pid, 1);
    assert_eq!(h.addr.svr_port, 9001);
}

#[test]
fn test_get_table_without_entry_is_not_found() {
    let mut c = client();
    c.init();
    let err = c.get_table(&"absent".to_owned(), &[Value::Int(1)], false, 0).unwrap_err();
    assert!(matches!(err.code(), CommonErrCode::NotFound));
}

#[test]
fn test_refresh_table_entry_needs_row_key_element() {
    // A partitioned table in Normal mode cannot be installed before its
    // row-key element is registered.
    let mut c = client();
    c.init();
    let table = "t2".to_owned();
    let err = c.refresh_table_entry(&table, hash_entry(2)).unwrap_err();
    assert!(matches!(err.code(), CommonErrCode::NotFound));
    c.add_row_key_element(&table, vec!["c1".to_owned()]);
    c.refresh_table_entry(&table, hash_entry(2)).unwrap();
}

#[test]
fn test_hbase_mode_fixes_row_key_element() {
    // In HBase mode the row-key element is the fixed K/Q/T triple.
    let mut c = ObTableClient::new(identity(), ClientConfig::default(), RunningMode::HBase);
    c.init();
    let table = "h1".to_owned();
    let mut e = hash_entry(2);
    if let Some(info) = &mut e.partition_info {
        if let Some(d) = &mut info.first_part_desc {
            d.part_columns = vec!["K".to_owned()];
        }
    }
    c.refresh_table_entry(&table, e).unwrap();
    let rec = c.tables.iter().find(|r| r.name == "h1").unwrap();
    let installed = rec.entry.as_ref().unwrap();
    assert_eq!(installed.row_key_element, vec!["K", "Q", "T"]);
}

#[test]
fn test_sync_refresh_metadata_reconciles_roster() {
    // Start with backends on three ports; the new root entry lists two
    // of them active. Afterwards the registry's keys are exactly the
    // active set and the roster's maximum priority is 0.
    let mut c = client();
    c.init();
    c.init_metadata(
        &root_entry(vec![
            active_leader("10.0.0.1", 1001),
            active_leader("10.0.0.2", 1002),
            active_leader("10.0.0.3", 1003),
        ]),
        100,
    );
    assert_eq!(c.table_roster.len(), 3);
    c.server_roster.max_priority = 7;
    let mut stopped = active_leader("10.0.0.2", 1002);
    stopped.stop_time = 55;
    c.sync_refresh_metadata(
        &root_entry(vec![
            active_leader("10.0.0.1", 1001),
            stopped,
            active_leader("10.0.0.3", 1003),
        ]),
        200,
    );
    let mut ports: Vec<u32> = c.table_roster.iter().map(|h| h.addr.svr_port).collect();
    ports.sort();
    assert_eq!(ports, vec![1001, 1003]);
    assert_eq!(c.server_roster.max_priority(), 0);
    assert_eq!(c.last_refresh_metadata_ts, 200);
    assert_eq!(c.server_roster.members.len(), 2);
}

#[test]
fn test_sync_refresh_metadata_dedups_addresses() {
    let mut c = client();
    c.init();
    c.sync_refresh_metadata(
        &root_entry(vec![
            active_leader("10.0.0.1", 1001),
            active_leader("10.0.0.1", 1001),
        ]),
        10,
    );
    assert_eq!(c.table_roster.len(), 1);
}

#[test]
fn test_is_already_refreshed() {
    let mut c = client();
    c.last_refresh_metadata_ts = 1000;
    // Inside the 60 s interval the metadata refresh short-circuits.
    assert!(c.is_already_refreshed(1000 + 59_999));
    assert!(!c.is_already_refreshed(1000 + 60_000));
}

#[test]
fn test_success_resets_failure_counter() {
    // After any successful operation the table's continuous-failure
    // counter is zero.
    let mut c = client();
    c.init();
    let table = "t3".to_owned();
    let err = Error::Common(
        CommonErrCode::ObException(ResultCodes::OB_TIMEOUT),
        "timed out".to_owned(),
    );
    let plan = c.on_table_op_failure(&table, &err);
    assert!(!plan.refresh_non_blocking);
    assert!(!plan.refresh_blocking);
    let plan = c.on_table_op_failure(&table, &err);
    assert_eq!(plan, FailurePlan { refresh_non_blocking: false, refresh_blocking: false });
    assert_eq!(c.tables.iter().find(|r| r.name == "t3").unwrap().continuous_failures, 2);
    c.on_execute_result(&table, ResultCodes::OB_SUCCESS).unwrap();
    assert_eq!(c.tables.iter().find(|r| r.name == "t3").unwrap().continuous_failures, 0);
}

#[test]
fn test_failure_ceiling_demands_blocking_refresh() {
    let mut c = client();
    c.config.runtime_continuous_failure_ceiling = 2;
    let table = "t4".to_owned();
    let err = Error::Common(
        CommonErrCode::ObException(ResultCodes::OB_NOT_MASTER),
        "leader moved".to_owned(),
    );
    let p1 = c.on_table_op_failure(&table, &err);
    assert!(p1.refresh_non_blocking);
    assert!(!p1.refresh_blocking);
    let p2 = c.on_table_op_failure(&table, &err);
    assert!(!p2.refresh_blocking);
    // The third failure crosses the ceiling of 2.
    let p3 = c.on_table_op_failure(&table, &err);
    assert!(p3.refresh_blocking);
}

#[test]
fn test_error_classification() {
    let timeout = Error::Common(
        CommonErrCode::ObException(ResultCodes::OB_TIMEOUT),
        String::new(),
    );
    assert!(timeout.need_retry());
    assert!(!timeout.need_refresh_table());
    let moved = Error::Common(
        CommonErrCode::ObException(ResultCodes::OB_NOT_MASTER),
        String::new(),
    );
    assert!(moved.need_retry());
    assert!(moved.need_refresh_table());
    let fatal = Error::Common(CommonErrCode::ObException(ResultCodes::OB_ERROR), String::new());
    assert!(!fatal.need_retry());
    let lock = Error::Common(CommonErrCode::Lock, String::new());
    assert!(!lock.need_retry());
}

#[test]
fn test_should_retry_respects_budget() {
    let mut c = client();
    c.config.rpc_retry_limit = 3;
    let timeout = Error::Common(
        CommonErrCode::ObException(ResultCodes::OB_TIMEOUT),
        String::new(),
    );
    assert!(c.should_retry(&timeout, 1));
    assert!(c.should_retry(&timeout, 2));
    assert!(!c.should_retry(&timeout, 3));
}

#[test]
fn test_non_blocking_refresh_hits_lock() {
    // A non-blocking refresh while a blocking refresh is in progress
    // yields a Lock error and leaves the cache untouched.
    let mut c = client();
    c.init();
    let table = "t5".to_owned();
    let d = c.begin_refresh_table_entry(&table, true, true, 0).unwrap();
    assert_eq!(d, RefreshBegin::RefreshNow);
    let tables_before: Vec<String> = c.tables.iter().map(|r| r.name.clone()).collect();
    let err = c.begin_refresh_table_entry(&table, true, false, 0).unwrap_err();
    assert!(matches!(err.code(), CommonErrCode::Lock));
    let tables_after: Vec<String> = c.tables.iter().map(|r| r.name.clone()).collect();
    assert_eq!(tables_before, tables_after);
    assert!(c.tables.iter().find(|r| r.name == "t5").unwrap().lock_held);
    // A blocking caller waits instead.
    let d = c.begin_refresh_table_entry(&table, true, true, 0).unwrap();
    assert_eq!(d, RefreshBegin::Wait);
    // After the holder releases, the lock can be taken again.
    c.end_refresh_table_entry(&table);
    let d = c.begin_refresh_table_entry(&table, true, true, 0).unwrap();
    assert_eq!(d, RefreshBegin::RefreshNow);
}

#[test]
fn test_begin_refresh_serves_fresh_cache() {
    let mut c = client();
    c.init();
    let table = "t6".to_owned();
    c.add_row_key_element(&table, vec!["c1".to_owned()]);
    let mut e = hash_entry(2);
    e.refresh_time_mills = 1000;
    c.refresh_table_entry(&table, e).unwrap();
    // Tolerating staleness always serves the cache.
    let d = c.begin_refresh_table_entry(&table, false, true, 1_000_000_000).unwrap();
    assert_eq!(d, RefreshBegin::UseCached);
    // Demanding freshness within the refresh interval also serves it.
    let d = c.begin_refresh_table_entry(&table, true, true, 1500).unwrap();
    assert_eq!(d, RefreshBegin::UseCached);
}

#[test]
fn test_add_row_key_element_first_call_wins() {
    // Registering a row-key element twice, with different columns,
    // leaves the first mapping unchanged.
    let mut c = client();
    let table = "t7".to_owned();
    c.add_row_key_element(&table, vec!["a".to_owned(), "b".to_owned()]);
    c.add_row_key_element(&table, vec!["x".to_owned()]);
    let rec = c.tables.iter().find(|r| r.name == "t7").unwrap();
    assert_eq!(rec.row_key_element.as_ref().unwrap(), &vec!["a".to_owned(), "b".to_owned()]);
}

#[test]
fn test_invalidate_table_forgets_everything() {
    let mut c = client();
    c.init();
    let table = "t8".to_owned();
    c.add_row_key_element(&table, vec!["c1".to_owned()]);
    c.refresh_table_entry(&table, hash_entry(2)).unwrap();
    assert!(c.tables.iter().any(|r| r.name == "t8"));
    c.invalidate_table(&table);
    assert!(!c.tables.iter().any(|r| r.name == "t8"));
    // Invalidating an unknown table changes nothing.
    c.invalidate_table(&"nope".to_owned());
}

#[test]
fn test_refresh_interval_scales_with_priority() {
    let mut c = client();
    c.config.table_entry_refresh_interval_base_ms = 1000;
    c.config.table_entry_refresh_interval_ceiling_ms = 10_000;
    let e = TableEntry { refresh_time_mills: 0, ..hash_entry(2) };
    // Priority 0: the base interval of 1000 ms.
    c.server_roster.max_priority = 0;
    assert!(!c.need_refresh_table_entry(&e, 999));
    assert!(c.need_refresh_table_entry(&e, 1000));
    // Priority 1 halves the interval.
    c.server_roster.max_priority = 1;
    assert!(!c.need_refresh_table_entry(&e, 499));
    assert!(c.need_refresh_table_entry(&e, 500));
    // Priority -2 quadruples it.
    c.server_roster.max_priority = -2;
    assert!(!c.need_refresh_table_entry(&e, 3999));
    assert!(c.need_refresh_table_entry(&e, 4000));
    // A deeply negative priority is capped by the ceiling.
    c.server_roster.max_priority = -50;
    assert!(!c.need_refresh_table_entry(&e, 9999));
    assert!(c.need_refresh_table_entry(&e, 10_000));
}

#[test]
fn test_note_table_entry_refresh_failure() {
    let mut c = client();
    c.config.table_entry_refresh_continuous_failure_ceiling = 2;
    assert!(!c.note_table_entry_refresh_failure());
    assert!(!c.note_table_entry_refresh_failure());
    // The third failure crosses the ceiling and restarts the counter.
    assert!(c.note_table_entry_refresh_failure());
    assert_eq!(c.table_entry_refresh_continuous_failure_count, 0);
}

#[test]
fn test_refresh_retry_times_capped_by_roster() {
    let mut c = client();
    c.config.table_entry_refresh_try_times = 3;
    assert_eq!(c.refresh_retry_times(), 0);
    c.server_roster.members = vec![addr("10.0.0.1", 1), addr("10.0.0.2", 2)];
    assert_eq!(c.refresh_retry_times(), 2);
    c.server_roster.members.push(addr("10.0.0.3", 3));
    c.server_roster.members.push(addr("10.0.0.4", 4));
    assert_eq!(c.refresh_retry_times(), 3);
    assert_eq!(c.refresh_backoff_ms(0), 20);
    assert_eq!(c.refresh_backoff_ms(2), 60);
}

#[test]
fn test_close_drains_registry() {
    let mut c = client();
    c.init();
    c.init_metadata(&root_entry(vec![active_leader("10.0.0.1", 1001)]), 1);
    assert_eq!(c.table_roster.len(), 1);
    c.close();
    assert!(c.is_closed());
    assert_eq!(c.table_roster.len(), 0);
}

#[test]
fn test_execute_sql_target() {
    let mut c = client();
    let err = c.execute_sql_target().unwrap_err();
    assert!(matches!(err.code(), CommonErrCode::NotFound));
    c.server_roster.members = vec![addr("10.0.0.9", 7777)];
    let a = c.execute_sql_target().unwrap();
    assert_eq!(a.svr_port, 7777);
    assert_eq!(a.ip, "10.0.0.9");
}

#[test]
fn test_backend_handle_and_records() {
    let h = BackendHandle { addr: addr("10.0.0.1", 1) };
    let h2 = h.clone();
    assert_eq!(h2.addr.ip, "10.0.0.1");
    let rec = TableRecord {
        name: "x".to_owned(),
        entry: None,
        row_key_element: None,
        lock_held: false,
        continuous_failures: 0,
    };
    assert_eq!(rec.continuous_failures, 0);
}

#[test]
fn test_refresh_error_classes() {
    // Without a registered row-key element a Normal-mode partition table
    // is NotFound, with the catalog's own wording; a registered element
    // that misses a named partition column is a PartitionError; a
    // matching one installs the entry.
    let mut c = client();
    c.init();
    let table = "tc".to_owned();
    let err = c.refresh_table_entry(&table, hash_entry(2)).unwrap_err();
    assert!(matches!(err.code(), CommonErrCode::NotFound));
    assert_eq!(err.message(), "Partition table must has row key element");
    c.add_row_key_element(&table, vec!["other".to_owned()]);
    let err = c.refresh_table_entry(&table, hash_entry(2)).unwrap_err();
    assert!(matches!(err.code(), CommonErrCode::PartitionError));
    let table2 = "tc2".to_owned();
    c.add_row_key_element(&table2, vec!["c1".to_owned()]);
    c.refresh_table_entry(&table2, hash_entry(2)).unwrap();
}

#[test]
fn test_hbase_refresh_rejects_foreign_columns() {
    // In HBase mode only the fixed K/Q/T columns resolve.
    let mut c = ObTableClient::new(identity(), ClientConfig::default(), RunningMode::HBase);
    c.init();
    let table = "th".to_owned();
    let err = c.refresh_table_entry(&table, hash_entry(2)).unwrap_err();
    assert!(matches!(err.code(), CommonErrCode::PartitionError));
}

#[test]
fn test_prepare_failure_leaves_entry_unchanged() {
    // A failed preparation rewrites nothing: the first descriptor's
    // ordinals stay as they were even though only the second descriptor
    // was unresolvable.
    let mut e = hash_entry(2);
    e.row_key_element = vec!["c1".to_owned()];
    if let Some(info) = &mut e.partition_info {
        info.sub_part_desc = Some(PartDesc {
            part_func_type: PartFuncType::HASH,
            scheme: PartScheme::Hash { part_num: 2 },
            part_columns: vec!["missing".to_owned()],
            ordinals: Vec::new(),
        });
    }
    let err = e.prepare().unwrap_err();
    assert!(matches!(err.code(), CommonErrCode::PartitionError));
    let info = e.partition_info.as_ref().unwrap();
    assert!(info.first_part_desc.as_ref().unwrap().ordinals.is_empty());
    assert!(info.sub_part_desc.as_ref().unwrap().ordinals.is_empty());
}

#[test]
fn test_get_tables_missing_handle_is_not_found() {
    // A leader whose backend handle is not registered reports NotFound:
    // the caller refreshes the cluster metadata and retries.
    let mut c = client();
    c.init();
    let table = "tg".to_owned();
    c.add_row_key_element(&table, vec!["c1".to_owned()]);
    c.refresh_table_entry(&table, hash_entry(2)).unwrap();
    let err = c
        .get_tables(&table, &[Value::Int(0)], true, &[Value::Int(5)], true, false, 0)
        .unwrap_err();
    assert!(matches!(err.code(), CommonErrCode::NotFound));
}
