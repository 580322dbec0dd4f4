//! The builder, connection-string parsing, the roster, and the SQL
//! passthrough statements.

use obkv::builder::{
    find_database, parse_non_standard_full_user_name, parse_standard_full_user_name, Builder,
};
use obkv::client::RunningMode;
use obkv::location::ObServerAddr;
use obkv::roster::ServerRoster;
use obkv::strutil::{check_table_exists_sql, truncate_table_sql};

fn addr_with_priority(port: u32, priority: i64) -> ObServerAddr {
    ObServerAddr { ip: "10.0.0.1".to_owned(), svr_port: port, sql_port: port + 1, priority }
}

#[test]
fn test_parse_standard_full_user_name() {
    let (user, tenant, cluster) = parse_standard_full_user_name("u@t#c").unwrap();
    assert_eq!(user, "u");
    assert_eq!(tenant, "t");
    assert_eq!(cluster, "c");
    let (user, tenant, cluster) = parse_standard_full_user_name("alice@sys#ob1").unwrap();
    assert_eq!(user, "alice");
    assert_eq!(tenant, "sys");
    assert_eq!(cluster, "ob1");
    // Missing pieces or empty parts are rejected.
    assert!(parse_standard_full_user_name("u@t").is_none());
    assert!(parse_standard_full_user_name("u#c").is_none());
    assert!(parse_standard_full_user_name("@t#c").is_none());
    assert!(parse_standard_full_user_name("u@#c").is_none());
    assert!(parse_standard_full_user_name("u@t#").is_none());
    // The order must be @ before #.
    assert!(parse_standard_full_user_name("u#t@c").is_none());
}

#[test]
fn test_parse_non_standard_full_user_name() {
    let (cluster, tenant, user) = parse_non_standard_full_user_name("c:t:u").unwrap();
    assert_eq!(cluster, "c");
    assert_eq!(tenant, "t");
    assert_eq!(user, "u");
    let (cluster, tenant, user) = parse_non_standard_full_user_name("ob1-sys-alice").unwrap();
    assert_eq!(cluster, "ob1");
    assert_eq!(tenant, "sys");
    assert_eq!(user, "alice");
    let (cluster, tenant, user) = parse_non_standard_full_user_name("a.b.c").unwrap();
    assert_eq!(cluster, "a");
    assert_eq!(tenant, "b");
    assert_eq!(user, "c");
    // The first and last occurrences of one separator must differ.
    assert!(parse_non_standard_full_user_name("a:b").is_none());
    assert!(parse_non_standard_full_user_name("abc").is_none());
    // An earlier separator whose occurrences differ wins over later ones.
    let (cluster, tenant, user) = parse_non_standard_full_user_name("a:b.c:d").unwrap();
    assert_eq!(cluster, "a");
    assert_eq!(tenant, "b.c");
    assert_eq!(user, "d");
}

#[test]
fn test_find_database_in_url() {
    assert_eq!(
        find_database("http://h/svc?database=db1").unwrap(),
        "db1".to_owned()
    );
    // The key is matched ignoring ASCII case, and the last wins.
    assert_eq!(
        find_database("http://h/svc?a=1&DataBase=db2&b=2").unwrap(),
        "db2".to_owned()
    );
    assert_eq!(
        find_database("http://h/svc?database=db1&database=db3").unwrap(),
        "db3".to_owned()
    );
    // No query string, no database, an empty value, or a malformed
    // parameter all fail.
    assert!(find_database("http://h/svc").is_none());
    assert!(find_database("http://h/svc?").is_none());
    assert!(find_database("http://h/svc?a=1&b=2").is_none());
    assert!(find_database("http://h/svc?database=").is_none());
    assert!(find_database("http://h/svc?database=x&broken").is_none());
    assert!(find_database("http://h/svc?database=x=y").is_none());
}

#[test]
fn test_builder_assembles_client() {
    let client = Builder::new()
        .running_mode(RunningMode::HBase)
        .full_user_name(&"alice@sys#ob1".to_owned())
        .password(&"pw".to_owned())
        .param_url(&"http://h/svc?database=db1".to_owned())
        .build()
        .unwrap();
    assert_eq!(client.running_mode(), RunningMode::HBase);
    assert_eq!(client.identity.user_name, "alice");
    assert_eq!(client.identity.tenant_name, "sys");
    assert_eq!(client.identity.cluster_name, "ob1");
    assert_eq!(client.identity.database, "db1");
    assert_eq!(client.identity.full_user_name, "alice@sys#ob1");
    assert!(!client.is_initialized());
}

#[test]
fn test_builder_legacy_name() {
    let b = Builder::new().full_user_name(&"ob1:sys:alice".to_owned());
    assert_eq!(b.cluster_name, "ob1");
    assert_eq!(b.tenant_name, "sys");
    assert_eq!(b.user_name, "alice");
}

#[test]
fn test_builder_default_is_blank() {
    let b = Builder::default();
    assert_eq!(b.full_user_name, "");
    assert_eq!(b.param_url, "");
    assert_eq!(b.running_mode, RunningMode::Normal);
}

#[test]
fn test_sql_statements() {
    assert_eq!(
        check_table_exists_sql(&"test_t".to_owned()),
        "SELECT 1 FROM test_t LIMIT 1;"
    );
    assert_eq!(
        truncate_table_sql(&"test_t".to_owned()),
        "truncate table test_t; purge recyclebin;"
    );
}

#[test]
fn test_roster_reset_and_clamp() {
    // After reset the cached maximum priority is 0, and the read value
    // is always clamped to [-50, 50].
    let mut r = ServerRoster::new();
    assert_eq!(r.max_priority(), 0);
    r.reset(vec![addr_with_priority(1, 3), addr_with_priority(2, -7)]);
    assert_eq!(r.max_priority(), 0);
    r.max_priority = 100;
    assert_eq!(r.max_priority(), 50);
    r.max_priority = -100;
    assert_eq!(r.max_priority(), -50);
    r.max_priority = 17;
    assert_eq!(r.max_priority(), 17);
}

#[test]
fn test_roster_upgrade_downgrade() {
    let mut r = ServerRoster::new();
    r.reset(vec![addr_with_priority(1, -3), addr_with_priority(2, -9)]);
    // Downgrading below the cache recomputes the maximum over members.
    r.downgrade_max_priority(-1);
    assert_eq!(r.max_priority(), -3);
    // Upgrading to 0 forces the cache back to 0.
    r.upgrade_max_priority(0);
    assert_eq!(r.max_priority(), 0);
    // A downgrade at or above the cache is a no-op.
    r.downgrade_max_priority(5);
    assert_eq!(r.max_priority(), 0);
    // After raising a member, an upgrade past the cache recomputes.
    r.set_member_priority(0, 4);
    r.upgrade_max_priority(2);
    assert_eq!(r.max_priority(), 4);
}

#[test]
fn test_peek_random_server() {
    // The random pick draws a member of the roster, and nothing from an
    // empty roster.
    let mut r = ServerRoster::new();
    assert!(r.peek_random_server().is_none());
    r.reset(vec![
        addr_with_priority(1, 0),
        addr_with_priority(2, 0),
        addr_with_priority(3, 0),
    ]);
    for _ in 0..32 {
        let m = r.peek_random_server().unwrap();
        assert!(m.svr_port == 1 || m.svr_port == 2 || m.svr_port == 3);
        assert_eq!(m.ip, "10.0.0.1");
    }
}
