//! The partition-aware table client core.
//!
//! The client keeps, per table, a metadata snapshot with a per-table
//! refresh lock and a continuous-failure counter; a registry of backend
//! handles keyed by backend address; the server roster; and the global
//! metadata-refresh bookkeeping. Every method here is a pure state
//! transition: the runtime around the library performs the network calls
//! (the table locator, the directory service, the wire codec) and feeds
//! their results in — timestamps come in as arguments for the same
//! reason. The methods are verified for every answer the outside world
//! can give.

use vstd::prelude::*;

use crate::error::{common_err, CommonErrCode, Error, ResultCodes};
use crate::location::{spec_addr_key_eq, ObServerAddr};
use crate::roster::ServerRoster;
use crate::table_entry::TableEntry;
use crate::value::Value;

verus! {

/// How the client interprets row keys: application-defined columns, or
/// the fixed HBase K/Q/T triple.
#[derive(Clone, Copy, Debug, PartialEq, Eq, Structural)]
pub enum RunningMode {
    Normal,
    HBase,
}

/// The tunable options of the client. Durations are in milliseconds.
#[derive(Debug, Clone)]
pub struct ClientConfig {
    pub rpc_connect_timeout_ms: u64,
    pub rpc_read_timeout_ms: u64,
    pub rpc_login_timeout_ms: u64,
    pub rpc_operation_timeout_ms: u64,
    pub rpc_retry_limit: u64,
    pub rpc_retry_interval_ms: u64,
    pub max_conns_per_server: usize,
    pub min_idle_conns_per_server: usize,
    pub conn_init_thread_num: usize,
    pub table_batch_op_thread_num: usize,
    pub table_entry_refresh_interval_base_ms: u64,
    pub table_entry_refresh_interval_ceiling_ms: u64,
    pub table_entry_refresh_try_times: usize,
    pub table_entry_refresh_try_interval_ms: u64,
    pub table_entry_refresh_continuous_failure_ceiling: u64,
    pub runtime_continuous_failure_ceiling: u64,
    pub table_entry_acquire_connect_timeout_ms: u64,
    pub table_entry_acquire_read_timeout_ms: u64,
    pub server_address_priority_timeout_ms: u64,
    pub metadata_refresh_interval_ms: u64,
    pub rslist_acquire_timeout_ms: u64,
    pub rslist_acquire_try_times: usize,
    pub rslist_acquire_retry_interval_ms: u64,
    pub ocp_model_cache_file: String,
    pub query_concurrency_limit: Option<usize>,
    pub sys_user_name: String,
    pub sys_password: String,
    pub log_level_flag: u16,
}

impl Default for ClientConfig {
    /// Conservative defaults: second-scale RPC deadlines, minute-scale
    /// metadata refresh pacing, small per-backend pools.
    fn default() -> (c: Self)
        ensures
            c.rpc_retry_limit == 3,
            c.runtime_continuous_failure_ceiling == 10,
            c.table_entry_refresh_continuous_failure_ceiling == 10,
            c.table_entry_refresh_try_times == 3,
            c.metadata_refresh_interval_ms == 60000,
    {
        ClientConfig {
            rpc_connect_timeout_ms: 1000,
            rpc_read_timeout_ms: 3000,
            rpc_login_timeout_ms: 1000,
            rpc_operation_timeout_ms: 10000,
            rpc_retry_limit: 3,
            rpc_retry_interval_ms: 0,
            max_conns_per_server: 10,
            min_idle_conns_per_server: 5,
            conn_init_thread_num: 2,
            table_batch_op_thread_num: 16,
            table_entry_refresh_interval_base_ms: 60000,
            table_entry_refresh_interval_ceiling_ms: 1800000,
            table_entry_refresh_try_times: 3,
            table_entry_refresh_try_interval_ms: 20,
            table_entry_refresh_continuous_failure_ceiling: 10,
            runtime_continuous_failure_ceiling: 10,
            table_entry_acquire_connect_timeout_ms: 500,
            table_entry_acquire_read_timeout_ms: 3000,
            server_address_priority_timeout_ms: 1800000,
            metadata_refresh_interval_ms: 60000,
            rslist_acquire_timeout_ms: 10000,
            rslist_acquire_try_times: 3,
            rslist_acquire_retry_interval_ms: 100,
            ocp_model_cache_file: String::new(),
            query_concurrency_limit: None,
            sys_user_name: String::new(),
            sys_password: String::new(),
            log_level_flag: 0,
        }
    }
}

/// Who the client is: the connection string, the parsed identity parts,
/// and the credentials the runtime logs in with.
#[derive(Debug)]
pub struct ClientIdentity {
    pub param_url: String,
    pub full_user_name: String,
    pub user_name: String,
    pub tenant_name: String,
    pub cluster_name: String,
    pub password: String,
    pub database: String,
    pub datasource_name: String,
}

/// A handle to one backend: the address that the runtime's connection
/// pool for that backend is keyed by.
#[derive(Debug)]
pub struct BackendHandle {
    pub addr: ObServerAddr,
}

impl Clone for BackendHandle {
    /// A clone addresses the same backend.
    fn clone(&self) -> (res: Self)
        ensures
            res.addr.ip@ == self.addr.ip@,
            res.addr.svr_port == self.addr.svr_port,
            res.addr.sql_port == self.addr.sql_port,
            res.addr.priority == self.addr.priority,
    {
        BackendHandle { addr: self.addr.clone() }
    }
}

/// Everything the client keeps about one table.
#[derive(Debug)]
pub struct TableRecord {
    pub name: String,
    /// The cached metadata snapshot, once one has been installed.
    pub entry: Option<TableEntry>,
    /// The registered row-key column names, once registered.
    pub row_key_element: Option<Vec<String>>,
    /// The per-table refresh lock: true while some refresher holds it.
    pub lock_held: bool,
    /// Consecutive failed operations since the last success.
    pub continuous_failures: u64,
}

/// The position of the record for `name`, by first match.
pub open spec fn spec_table_idx(ts: Seq<TableRecord>, name: Seq<char>) -> Option<int>
    decreases ts.len(),
{
    if ts.len() == 0 {
        None
    } else if ts[0].name@ == name {
        Some(0int)
    } else {
        match spec_table_idx(ts.skip(1), name) {
            Option::None => None,
            Option::Some(i) => Some(1 + i),
        }
    }
}

/// A record for `name` exists.
pub open spec fn spec_has_table(ts: Seq<TableRecord>, name: Seq<char>) -> bool {
    spec_table_idx(ts, name) is Some
}

/// The record for `name`.
pub open spec fn spec_table_at(ts: Seq<TableRecord>, name: Seq<char>) -> TableRecord
    recommends
        spec_has_table(ts, name),
{
    ts[spec_table_idx(ts, name)->Some_0]
}

/// A found index lies in range and names the requested table.
pub proof fn lemma_table_idx_valid(ts: Seq<TableRecord>, name: Seq<char>)
    ensures
        spec_table_idx(ts, name) matches Some(i) ==> 0 <= i < ts.len() && ts[i].name@ == name,
    decreases ts.len(),
{
    if ts.len() > 0 {
        lemma_table_idx_valid(ts.skip(1), name);
    }
}

/// Stepping past a record with another name leaves the search unchanged.
proof fn lemma_table_idx_step(ts: Seq<TableRecord>, name: Seq<char>, i: int)
    requires
        0 <= i < ts.len(),
        ts[i].name@ != name,
    ensures
        spec_table_idx(ts.skip(i), name) == match spec_table_idx(ts.skip(i + 1), name) {
            Option::None => Option::<int>::None,
            Option::Some(k) => Option::Some(1 + k),
        },
{
    let s = ts.skip(i);
    assert(s[0] == ts[i]);
    assert(s.skip(1) =~= ts.skip(i + 1));
}

/// The position of the handle for the backend at `(ip, port)`, by first
/// match.
pub open spec fn spec_handle_idx(hs: Seq<BackendHandle>, ip: Seq<char>, port: u32) -> Option<int>
    decreases hs.len(),
{
    if hs.len() == 0 {
        None
    } else if hs[0].addr.ip@ == ip && hs[0].addr.svr_port == port {
        Some(0int)
    } else {
        match spec_handle_idx(hs.skip(1), ip, port) {
            Option::None => None,
            Option::Some(i) => Some(1 + i),
        }
    }
}

/// A handle for the backend at `(ip, port)` is registered.
pub open spec fn spec_has_handle(hs: Seq<BackendHandle>, ip: Seq<char>, port: u32) -> bool {
    spec_handle_idx(hs, ip, port) is Some
}

/// A found handle index lies in range and carries the requested key.
pub proof fn lemma_handle_idx_valid(hs: Seq<BackendHandle>, ip: Seq<char>, port: u32)
    ensures
        spec_handle_idx(hs, ip, port) matches Some(i) ==> 0 <= i < hs.len() && hs[i].addr.ip@ == ip
            && hs[i].addr.svr_port == port,
    decreases hs.len(),
{
    if hs.len() > 0 {
        lemma_handle_idx_valid(hs.skip(1), ip, port);
    }
}

/// Stepping past a handle with another key leaves the search unchanged.
proof fn lemma_handle_idx_step(hs: Seq<BackendHandle>, ip: Seq<char>, port: u32, i: int)
    requires
        0 <= i < hs.len(),
        !(hs[i].addr.ip@ == ip && hs[i].addr.svr_port == port),
    ensures
        spec_handle_idx(hs.skip(i), ip, port) == match spec_handle_idx(hs.skip(i + 1), ip, port) {
            Option::None => Option::<int>::None,
            Option::Some(k) => Option::Some(1 + k),
        },
{
    let s = hs.skip(i);
    assert(s[0] == hs[i]);
    assert(s.skip(1) =~= hs.skip(i + 1));
}

/// The partition-aware table client core: metadata cache, backend-handle
/// registry, server roster, and failure bookkeeping.
#[derive(Debug)]
pub struct ObTableClient {
    pub identity: ClientIdentity,
    pub config: ClientConfig,
    pub running_mode: RunningMode,
    pub initialized: bool,
    pub closed: bool,
    pub tables: Vec<TableRecord>,
    pub table_roster: Vec<BackendHandle>,
    pub server_roster: ServerRoster,
    pub last_refresh_metadata_ts: u64,
    pub table_entry_refresh_continuous_failure_count: u64,
}

impl ObTableClient {
    /// Table names are unique, backend keys are unique, and every cached
    /// entry carries well-formed partition descriptors.
    pub open spec fn wf(self) -> bool {
        &&& forall|i: int, j: int|
            0 <= i < j < self.tables@.len() ==> self.tables@[i].name@ != self.tables@[j].name@
        &&& forall|i: int, j: int|
            0 <= i < j < self.table_roster@.len() ==> !spec_addr_key_eq(
                self.table_roster@[i].addr,
                self.table_roster@[j].addr,
            )
        &&& forall|i: int|
            0 <= i < self.tables@.len() ==> (#[trigger] self.tables@[i].entry matches Some(e)
                ==> e.spec_routable())
    }

    /// A fresh, uninitialized client.
    pub fn new(identity: ClientIdentity, config: ClientConfig, running_mode: RunningMode) -> (c:
        ObTableClient)
        ensures
            c.wf(),
            c.identity == identity,
            c.config == config,
            c.running_mode == running_mode,
            !c.initialized,
            !c.closed,
            c.tables@.len() == 0,
            c.table_roster@.len() == 0,
            c.server_roster.members@.len() == 0,
            c.server_roster.max_priority == 0,
            c.last_refresh_metadata_ts == 0,
            c.table_entry_refresh_continuous_failure_count == 0,
    {
        ObTableClient {
            identity,
            config,
            running_mode,
            initialized: false,
            closed: false,
            tables: Vec::new(),
            table_roster: Vec::new(),
            server_roster: ServerRoster::new(),
            last_refresh_metadata_ts: 0,
            table_entry_refresh_continuous_failure_count: 0,
        }
    }

    /// The client's running mode.
    pub fn running_mode(&self) -> (m: RunningMode)
        ensures
            m == self.running_mode,
    {
        self.running_mode
    }

    pub fn is_initialized(&self) -> (r: bool)
        ensures
            r == self.initialized,
    {
        self.initialized
    }

    pub fn is_closed(&self) -> (r: bool)
        ensures
            r == self.closed,
    {
        self.closed
    }

    /// Marks the client initialized; a second call changes nothing. After
    /// this the runtime loads the root catalog entry from the directory
    /// service and hands it to `init_metadata`.
    pub fn init(&mut self) -> (already: bool)
        ensures
            final(self).initialized,
            final(self).closed == old(self).closed,
            final(self).config == old(self).config,
            final(self).running_mode == old(self).running_mode,
            final(self).tables == old(self).tables,
            final(self).table_roster == old(self).table_roster,
            final(self).server_roster == old(self).server_roster,
            final(self).last_refresh_metadata_ts == old(self).last_refresh_metadata_ts,
            final(self).table_entry_refresh_continuous_failure_count == old(
                self,
            ).table_entry_refresh_continuous_failure_count,
            already == old(self).initialized,
    {
        if self.initialized {
            return true;
        }
        self.initialized = true;
        false
    }

    /// Marks the client closed and drains the backend-handle registry; a
    /// second call changes nothing more.
    pub fn close(&mut self)
        requires
            old(self).wf(),
        ensures
            final(self).closed,
            !old(self).closed ==> final(self).table_roster@.len() == 0,
            final(self).tables == old(self).tables,
            final(self).identity == old(self).identity,
            final(self).config == old(self).config,
            final(self).running_mode == old(self).running_mode,
            final(self).initialized == old(self).initialized,
            final(self).server_roster == old(self).server_roster,
            final(self).last_refresh_metadata_ts == old(self).last_refresh_metadata_ts,
            final(self).table_entry_refresh_continuous_failure_count == old(
                self,
            ).table_entry_refresh_continuous_failure_count,
            old(self).closed ==> final(self).table_roster == old(self).table_roster,
            final(self).wf(),
    {
        if self.closed {
            return;
        }
        self.closed = true;
        self.table_roster = Vec::new();
    }

    /// An operation may proceed only on an initialized, open client:
    /// otherwise exactly `NotInitialized` or `AlreadyClosed`, in that
    /// order.
    pub fn check_status(&self) -> (r: Result<(), Error>)
        ensures
            match r {
                Ok(()) => self.initialized && !self.closed,
                Err(e) => {
                    ||| (!self.initialized && e.spec_code() is NotInitialized)
                    ||| (self.initialized && self.closed && e.spec_code() is AlreadyClosed)
                },
            },
    {
        if !self.is_initialized() {
            return Err(common_err(
                CommonErrCode::NotInitialized,
                "the table client is not initialized",
            ));
        }
        if self.is_closed() {
            return Err(common_err(CommonErrCode::AlreadyClosed, "the table client is closed"));
        }
        Ok(())
    }

    /// Finds the record of a table.
    pub(crate) fn find_table(&self, table_name: &String) -> (r: Option<usize>)
        ensures
            match r {
                Some(i) => spec_table_idx(self.tables@, table_name@) == Some(i as int) && i
                    < self.tables@.len(),
                None => spec_table_idx(self.tables@, table_name@) is None,
            },
    {
        let ts = &self.tables;
        let mut i: usize = 0;
        proof {
            assert(ts@.skip(0) =~= ts@);
        }
        loop
            invariant
                i <= ts@.len(),
                ts@ == self.tables@,
                spec_table_idx(ts@, table_name@) == match spec_table_idx(
                    ts@.skip(i as int),
                    table_name@,
                ) {
                    Option::None => Option::<int>::None,
                    Option::Some(k) => Option::Some(i + k),
                },
            decreases ts@.len() - i,
        {
            if i == ts.len() {
                proof {
                    assert(ts@.skip(i as int).len() == 0);
                }
                return None;
            }
            proof {
                assert(ts@.skip(i as int)[0] == ts@[i as int]);
            }
            if crate::strutil::string_eq(&ts[i].name, table_name) {
                return Some(i);
            }
            proof {
                lemma_table_idx_step(ts@, table_name@, i as int);
            }
            i = i + 1;
        }
    }

    /// Finds the handle registered for a backend address.
    fn find_handle(&self, addr: &ObServerAddr) -> (r: Option<usize>)
        ensures
            match r {
                Some(i) => spec_handle_idx(self.table_roster@, addr.ip@, addr.svr_port) == Some(
                    i as int,
                ) && i < self.table_roster@.len(),
                None => spec_handle_idx(self.table_roster@, addr.ip@, addr.svr_port) is None,
            },
    {
        let hs = &self.table_roster;
        let mut i: usize = 0;
        proof {
            assert(hs@.skip(0) =~= hs@);
        }
        loop
            invariant
                i <= hs@.len(),
                hs@ == self.table_roster@,
                spec_handle_idx(hs@, addr.ip@, addr.svr_port) == match spec_handle_idx(
                    hs@.skip(i as int),
                    addr.ip@,
                    addr.svr_port,
                ) {
                    Option::None => Option::<int>::None,
                    Option::Some(k) => Option::Some(i + k),
                },
            decreases hs@.len() - i,
        {
            if i == hs.len() {
                proof {
                    assert(hs@.skip(i as int).len() == 0);
                }
                return None;
            }
            proof {
                assert(hs@.skip(i as int)[0] == hs@[i as int]);
            }
            if hs[i].addr.key_eq(addr) {
                return Some(i);
            }
            proof {
                lemma_handle_idx_step(hs@, addr.ip@, addr.svr_port, i as int);
            }
            i = i + 1;
        }
    }

    /// Every field of the client is the same in `pre` and `post`.
    pub open spec fn spec_unchanged(pre: ObTableClient, post: ObTableClient) -> bool {
        &&& post.identity == pre.identity
        &&& post.config == pre.config
        &&& post.running_mode == pre.running_mode
        &&& post.initialized == pre.initialized
        &&& post.closed == pre.closed
        &&& post.tables == pre.tables
        &&& post.table_roster == pre.table_roster
        &&& post.server_roster == pre.server_roster
        &&& post.last_refresh_metadata_ts == pre.last_refresh_metadata_ts
        &&& post.table_entry_refresh_continuous_failure_count
            == pre.table_entry_refresh_continuous_failure_count
    }

    /// Every field but `tables` is the same in `pre` and `post`.
    pub open spec fn spec_only_tables_changed(pre: ObTableClient, post: ObTableClient) -> bool {
        &&& post.identity == pre.identity
        &&& post.config == pre.config
        &&& post.running_mode == pre.running_mode
        &&& post.initialized == pre.initialized
        &&& post.closed == pre.closed
        &&& post.table_roster == pre.table_roster
        &&& post.server_roster == pre.server_roster
        &&& post.last_refresh_metadata_ts == pre.last_refresh_metadata_ts
        &&& post.table_entry_refresh_continuous_failure_count
            == pre.table_entry_refresh_continuous_failure_count
    }

    /// The cached metadata snapshot of a table, if one is installed.
    pub fn get_table_entry_from_cache(&self, table_name: &String) -> (r: Option<&TableEntry>)
        ensures
            match r {
                Some(e) => spec_has_table(self.tables@, table_name@) && spec_table_at(
                    self.tables@,
                    table_name@,
                ).entry == Some(*e),
                None => !spec_has_table(self.tables@, table_name@) || spec_table_at(
                    self.tables@,
                    table_name@,
                ).entry is None,
            },
    {
        match self.find_table(table_name) {
            Some(i) => {
                match &self.tables[i].entry {
                    Some(e) => Some(e),
                    None => None,
                }
            },
            None => None,
        }
    }
}

/// The record `r` with its continuous-failure counter set to `n`.
pub open spec fn spec_with_failures(r: TableRecord, n: u64) -> TableRecord {
    TableRecord {
        name: r.name,
        entry: r.entry,
        row_key_element: r.row_key_element,
        lock_held: r.lock_held,
        continuous_failures: n,
    }
}

/// The record `r` with its refresh lock set to `held`.
pub open spec fn spec_with_lock(r: TableRecord, held: bool) -> TableRecord {
    TableRecord {
        name: r.name,
        entry: r.entry,
        row_key_element: r.row_key_element,
        lock_held: held,
        continuous_failures: r.continuous_failures,
    }
}

/// The record `r` with its cached entry replaced.
pub open spec fn spec_with_entry(r: TableRecord, e: Option<TableEntry>) -> TableRecord {
    TableRecord {
        name: r.name,
        entry: e,
        row_key_element: r.row_key_element,
        lock_held: r.lock_held,
        continuous_failures: r.continuous_failures,
    }
}

/// What the execution engine must do after a failed operation: trigger a
/// non-blocking refresh of the table's entry, a blocking refresh when the
/// continuous-failure ceiling is crossed, or neither.
#[derive(Clone, Copy, Debug, PartialEq, Eq, Structural)]
pub struct FailurePlan {
    pub refresh_non_blocking: bool,
    pub refresh_blocking: bool,
}

/// What `begin_refresh_table_entry` decided.
#[derive(Clone, Copy, Debug, PartialEq, Eq, Structural)]
pub enum RefreshBegin {
    /// The cached entry is usable; no lock was taken.
    UseCached,
    /// The caller now holds the per-table refresh lock and must refresh.
    RefreshNow,
    /// Another refresher holds the lock; a blocking caller waits for it
    /// and retries.
    Wait,
}

impl ObTableClient {
    /// Clears a table's continuous-failure counter, as every successful
    /// operation on the table does. Afterwards the counter of that table
    /// is zero.
    pub fn reset_table_failure(&mut self, table_name: &String)
        requires
            old(self).wf(),
        ensures
            final(self).wf(),
            Self::spec_only_tables_changed(*old(self), *final(self)),
            match spec_table_idx(old(self).tables@, table_name@) {
                Option::Some(i) => final(self).tables@ == old(self).tables@.update(
                    i,
                    spec_with_failures(old(self).tables@[i], 0),
                ),
                Option::None => final(self).tables == old(self).tables,
            },
            spec_has_table(final(self).tables@, table_name@) ==> spec_table_at(
                final(self).tables@,
                table_name@,
            ).continuous_failures == 0,
    {
        proof {
            lemma_table_idx_valid(self.tables@, table_name@);
        }
        match self.find_table(table_name) {
            Some(i) => {
                let mut rec = self.tables.remove(i);
                rec.continuous_failures = 0;
                self.tables.insert(i, rec);
                proof {
                    assert(final(self).tables@ =~= old(self).tables@.update(
                        i as int,
                        spec_with_failures(old(self).tables@[i as int], 0),
                    ));
                    lemma_table_idx_of_update(old(self).tables@, final(self).tables@, i as int);
                }
            },
            None => {},
        }
    }

    /// Registers the failure of an operation on a table and reports what
    /// the execution engine must do next: a non-blocking refresh when the
    /// error demands fresh metadata, and a blocking refresh when the
    /// table's continuous-failure counter crosses the configured ceiling.
    /// The caller performs the refreshes and, after a successful blocking
    /// refresh, calls `reset_table_failure`.
    pub fn on_table_op_failure(&mut self, table_name: &String, error: &Error) -> (plan:
        FailurePlan)
        requires
            old(self).wf(),
        ensures
            final(self).wf(),
            Self::spec_only_tables_changed(*old(self), *final(self)),
            plan.refresh_non_blocking == error.spec_need_refresh_table(),
            match spec_table_idx(old(self).tables@, table_name@) {
                Option::Some(i) => {
                    &&& final(self).tables@ == old(self).tables@.update(
                        i,
                        spec_with_failures(
                            old(self).tables@[i],
                            if old(self).tables@[i].continuous_failures == u64::MAX {
                                u64::MAX
                            } else {
                                (old(self).tables@[i].continuous_failures + 1) as u64
                            },
                        ),
                    )
                    &&& plan.refresh_blocking == (old(self).tables@[i].continuous_failures
                        >= old(self).config.runtime_continuous_failure_ceiling)
                },
                Option::None => {
                    &&& final(self).tables@.len() == old(self).tables@.len() + 1
                    &&& final(self).tables@.subrange(0, old(self).tables@.len() as int) == old(
                        self,
                    ).tables@
                    &&& final(self).tables@.last().name@ == table_name@
                    &&& final(self).tables@.last().continuous_failures == 1
                    &&& final(self).tables@.last().entry is None
                    &&& final(self).tables@.last().row_key_element is None
                    &&& !final(self).tables@.last().lock_held
                    &&& plan.refresh_blocking == (0
                        >= old(self).config.runtime_continuous_failure_ceiling)
                },
            },
    {
        proof {
            lemma_table_idx_valid(self.tables@, table_name@);
        }
        let refresh_non_blocking = error.need_refresh_table();
        match self.find_table(table_name) {
            Some(i) => {
                let mut rec = self.tables.remove(i);
                let prior = rec.continuous_failures;
                rec.continuous_failures = if prior == u64::MAX {
                    u64::MAX
                } else {
                    prior + 1
                };
                self.tables.insert(i, rec);
                proof {
                    assert(final(self).tables@ =~= old(self).tables@.update(
                        i as int,
                        spec_with_failures(
                            old(self).tables@[i as int],
                            if old(self).tables@[i as int].continuous_failures == u64::MAX {
                                u64::MAX
                            } else {
                                (old(self).tables@[i as int].continuous_failures + 1) as u64
                            },
                        ),
                    ));
                    lemma_table_idx_of_update(old(self).tables@, final(self).tables@, i as int);
                }
                FailurePlan {
                    refresh_non_blocking,
                    refresh_blocking: prior >= self.config.runtime_continuous_failure_ceiling,
                }
            },
            None => {
                let rec = TableRecord {
                    name: table_name.clone(),
                    entry: None,
                    row_key_element: None,
                    lock_held: false,
                    continuous_failures: 1,
                };
                self.tables.push(rec);
                proof {
                    assert(final(self).tables@.subrange(0, old(self).tables@.len() as int) =~= old(
                        self,
                    ).tables@);
                    lemma_names_of_push(old(self).tables@, final(self).tables@, table_name@);
                }
                FailurePlan {
                    refresh_non_blocking,
                    refresh_blocking: 0 >= self.config.runtime_continuous_failure_ceiling,
                }
            },
        }
    }
}

/// The dynamic refresh interval: `base / 2^p` for priority `p` (so a
/// downgraded roster, with negative maximum priority, refreshes sooner
/// after longer intervals become `base * 2^(-p)`), capped at `ceiling`.
pub open spec fn spec_refresh_interval_ms(base: u64, ceiling: u64, p: int) -> int
    recommends
        -64 < p < 64,
{
    let raw = if p >= 0 {
        base as int / vstd::arithmetic::power2::pow2(p as nat) as int
    } else {
        base as int * vstd::arithmetic::power2::pow2((-p) as nat) as int
    };
    if raw > ceiling {
        ceiling as int
    } else {
        raw
    }
}

/// A cached entry is stale once the time passed since its refresh instant
/// reaches the dynamic refresh interval.
pub open spec fn spec_need_refresh(
    entry_refresh_ms: u64,
    now_ms: u64,
    base: u64,
    ceiling: u64,
    p: int,
) -> bool {
    now_ms - entry_refresh_ms >= spec_refresh_interval_ms(base, ceiling, p)
}

impl ObTableClient {
    /// Computes the dynamic refresh interval from the roster's clamped
    /// maximum priority.
    fn refresh_interval_ms(&self) -> (r: u64)
        ensures
            r == spec_refresh_interval_ms(
                self.config.table_entry_refresh_interval_base_ms,
                self.config.table_entry_refresh_interval_ceiling_ms,
                crate::roster::spec_clamped_priority(self.server_roster.max_priority),
            ),
    {
        let p = self.server_roster.max_priority();
        let base = self.config.table_entry_refresh_interval_base_ms;
        let ceiling = self.config.table_entry_refresh_interval_ceiling_ms;
        if p >= 0 {
            let raw = base >> (p as u64);
            proof {
                vstd::bits::lemma_u64_shr_is_div(base, p as u64);
            }
            if raw > ceiling {
                ceiling
            } else {
                raw
            }
        } else {
            let q: u64 = (-p) as u64;
            let mut cur: u64 = if base > ceiling {
                ceiling
            } else {
                base
            };
            let mut k: u64 = 0;
            proof {
                vstd::arithmetic::power2::lemma2_to64();
            }
            while k < q
                invariant
                    k <= q,
                    q <= 50,
                    cur as int == spec_capped_double(base, ceiling, k as nat),
                decreases q - k,
            {
                let next: u128 = (cur as u128) * 2;
                proof {
                    lemma_capped_double_step(base, ceiling, k as nat);
                }
                cur = if next > (ceiling as u128) {
                    ceiling
                } else {
                    next as u64
                };
                k = k + 1;
            }
            proof {
                lemma_capped_double_is_interval(base, ceiling, q as nat);
            }
            cur
        }
    }

    /// Whether a cached entry is stale under the current roster priority.
    pub fn need_refresh_table_entry(&self, entry: &TableEntry, now_ms: u64) -> (r: bool)
        ensures
            r == spec_need_refresh(
                entry.refresh_time_mills,
                now_ms,
                self.config.table_entry_refresh_interval_base_ms,
                self.config.table_entry_refresh_interval_ceiling_ms,
                crate::roster::spec_clamped_priority(self.server_roster.max_priority),
            ),
    {
        let interval = self.refresh_interval_ms();
        (now_ms as u128) >= (entry.refresh_time_mills() as u128) + (interval as u128)
    }
}

/// `min(ceiling, base * 2^k)`: the value the doubling loop maintains.
pub open spec fn spec_capped_double(base: u64, ceiling: u64, k: nat) -> int {
    let raw = base as int * vstd::arithmetic::power2::pow2(k) as int;
    if raw > ceiling {
        ceiling as int
    } else {
        raw
    }
}

/// One doubling step preserves the cap.
proof fn lemma_capped_double_step(base: u64, ceiling: u64, k: nat)
    ensures
        ({
            let cur = spec_capped_double(base, ceiling, k);
            let next = if 2 * cur > ceiling {
                ceiling as int
            } else {
                2 * cur
            };
            next == spec_capped_double(base, ceiling, (k + 1) as nat)
        }),
{
    let p2k = vstd::arithmetic::power2::pow2(k) as int;
    let p2k1 = vstd::arithmetic::power2::pow2((k + 1) as nat) as int;
    vstd::arithmetic::power2::lemma_pow2_unfold((k + 1) as nat);
    assert(p2k1 == 2 * p2k);
    assert(base as int * p2k1 == 2 * (base as int * p2k)) by (nonlinear_arith)
        requires
            p2k1 == 2 * p2k,
    ;
    vstd::arithmetic::power2::lemma_pow2_pos(k);
    assert(base as int * p2k >= 0) by (nonlinear_arith)
        requires
            base as int >= 0,
            p2k > 0,
    ;
}

/// After `q` doublings the capped value equals the dynamic interval for
/// priority `-q`.
proof fn lemma_capped_double_is_interval(base: u64, ceiling: u64, q: nat)
    requires
        q > 0,
    ensures
        spec_capped_double(base, ceiling, q) == spec_refresh_interval_ms(
            base,
            ceiling,
            -(q as int),
        ),
{
}

impl ObTableClient {
    /// The cached entry of `name` may be served without a refresh: one is
    /// installed and either the caller tolerates staleness or it is still
    /// fresh.
    pub open spec fn spec_cache_usable(
        self,
        name: Seq<char>,
        refresh: bool,
        now_ms: u64,
    ) -> bool {
        &&& spec_has_table(self.tables@, name)
        &&& spec_table_at(self.tables@, name).entry matches Some(e) && (!refresh
            || !spec_need_refresh(
            e.refresh_time_mills,
            now_ms,
            self.config.table_entry_refresh_interval_base_ms,
            self.config.table_entry_refresh_interval_ceiling_ms,
            crate::roster::spec_clamped_priority(self.server_roster.max_priority),
        ))
    }

    /// Decides how to obtain a usable entry for `table_name`: serve the
    /// cache, take the per-table refresh lock, wait for the current
    /// holder (blocking callers), or fail with `Lock` (non-blocking
    /// callers). A `Lock` failure leaves the whole client, in particular
    /// the cache, unchanged.
    pub fn begin_refresh_table_entry(
        &mut self,
        table_name: &String,
        refresh: bool,
        blocking: bool,
        now_ms: u64,
    ) -> (r: Result<RefreshBegin, Error>)
        requires
            old(self).wf(),
        ensures
            final(self).wf(),
            Self::spec_only_tables_changed(*old(self), *final(self)),
            match r {
                Ok(RefreshBegin::UseCached) => Self::spec_unchanged(*old(self), *final(self))
                    && old(self).spec_cache_usable(table_name@, refresh, now_ms),
                Ok(RefreshBegin::Wait) => Self::spec_unchanged(*old(self), *final(self))
                    && blocking && spec_has_table(old(self).tables@, table_name@)
                    && spec_table_at(old(self).tables@, table_name@).lock_held && !old(
                    self,
                ).spec_cache_usable(table_name@, refresh, now_ms),
                Ok(RefreshBegin::RefreshNow) => {
                    &&& !old(self).spec_cache_usable(table_name@, refresh, now_ms)
                    &&& spec_has_table(final(self).tables@, table_name@)
                    &&& spec_table_at(final(self).tables@, table_name@).lock_held
                    &&& match spec_table_idx(old(self).tables@, table_name@) {
                        Option::Some(i) => !old(self).tables@[i].lock_held && final(self).tables@
                            == old(self).tables@.update(
                            i,
                            spec_with_lock(old(self).tables@[i], true),
                        ),
                        Option::None => ({
                            let t = final(self).tables@.last();
                            &&& final(self).tables@.len() == old(self).tables@.len() + 1
                            &&& final(self).tables@.subrange(0, old(self).tables@.len() as int)
                                == old(self).tables@
                            &&& t.name@ == table_name@
                            &&& t.lock_held
                            &&& t.entry is None
                            &&& t.row_key_element is None
                            &&& t.continuous_failures == 0
                        }),
                    }
                },
                Err(e) => Self::spec_unchanged(*old(self), *final(self)) && e.spec_code() is Lock
                    && !blocking && spec_has_table(old(self).tables@, table_name@)
                    && spec_table_at(old(self).tables@, table_name@).lock_held && !old(
                    self,
                ).spec_cache_usable(table_name@, refresh, now_ms),
            },
    {
        proof {
            lemma_table_idx_valid(self.tables@, table_name@);
        }
        let idx = self.find_table(table_name);
        if let Some(i) = idx {
            let usable = match &self.tables[i].entry {
                Some(e) => !refresh || !self.need_refresh_table_entry(e, now_ms),
                None => false,
            };
            if usable {
                return Ok(RefreshBegin::UseCached);
            }
            if self.tables[i].lock_held {
                if blocking {
                    return Ok(RefreshBegin::Wait);
                }
                return Err(common_err(
                    CommonErrCode::Lock,
                    "another thread is refreshing this table entry",
                ));
            }
            let mut rec = self.tables.remove(i);
            rec.lock_held = true;
            self.tables.insert(i, rec);
            proof {
                assert(final(self).tables@ =~= old(self).tables@.update(
                    i as int,
                    spec_with_lock(old(self).tables@[i as int], true),
                ));
                lemma_table_idx_of_update(old(self).tables@, final(self).tables@, i as int);
                lemma_table_idx_valid(final(self).tables@, table_name@);
            }
            Ok(RefreshBegin::RefreshNow)
        } else {
            let rec = TableRecord {
                name: table_name.clone(),
                entry: None,
                row_key_element: None,
                lock_held: true,
                continuous_failures: 0,
            };
            self.tables.push(rec);
            proof {
                assert(final(self).tables@.subrange(0, old(self).tables@.len() as int) =~= old(
                    self,
                ).tables@);
                lemma_names_of_push(old(self).tables@, final(self).tables@, table_name@);
                lemma_table_idx_found(final(self).tables@, table_name@, old(
                    self,
                ).tables@.len() as int);
            }
            Ok(RefreshBegin::RefreshNow)
        }
    }

    /// Releases the per-table refresh lock.
    pub fn end_refresh_table_entry(&mut self, table_name: &String)
        requires
            old(self).wf(),
        ensures
            final(self).wf(),
            Self::spec_only_tables_changed(*old(self), *final(self)),
            match spec_table_idx(old(self).tables@, table_name@) {
                Option::Some(i) => final(self).tables@ == old(self).tables@.update(
                    i,
                    spec_with_lock(old(self).tables@[i], false),
                ),
                Option::None => final(self).tables == old(self).tables,
            },
    {
        proof {
            lemma_table_idx_valid(self.tables@, table_name@);
        }
        match self.find_table(table_name) {
            Some(i) => {
                let mut rec = self.tables.remove(i);
                rec.lock_held = false;
                self.tables.insert(i, rec);
                proof {
                    assert(final(self).tables@ =~= old(self).tables@.update(
                        i as int,
                        spec_with_lock(old(self).tables@[i as int], false),
                    ));
                    lemma_table_idx_of_update(old(self).tables@, final(self).tables@, i as int);
                }
            },
            None => {},
        }
    }

    /// Registers one more failed table-entry refresh; reports whether the
    /// continuous-failure ceiling was crossed, in which case the counter
    /// restarts and the caller must refresh the cluster metadata.
    pub fn note_table_entry_refresh_failure(&mut self) -> (sync_needed: bool)
        ensures
            final(self).tables == old(self).tables,
            final(self).table_roster == old(self).table_roster,
            final(self).server_roster == old(self).server_roster,
            final(self).config == old(self).config,
            final(self).running_mode == old(self).running_mode,
            final(self).initialized == old(self).initialized,
            final(self).closed == old(self).closed,
            final(self).last_refresh_metadata_ts == old(self).last_refresh_metadata_ts,
            sync_needed == (old(self).table_entry_refresh_continuous_failure_count >= old(
                self,
            ).config.table_entry_refresh_continuous_failure_ceiling),
            final(self).table_entry_refresh_continuous_failure_count == if sync_needed {
                0u64
            } else if old(self).table_entry_refresh_continuous_failure_count == u64::MAX {
                u64::MAX
            } else {
                (old(self).table_entry_refresh_continuous_failure_count + 1) as u64
            },
    {
        let prior = self.table_entry_refresh_continuous_failure_count;
        if prior >= self.config.table_entry_refresh_continuous_failure_ceiling {
            self.table_entry_refresh_continuous_failure_count = 0;
            true
        } else {
            self.table_entry_refresh_continuous_failure_count = if prior == u64::MAX {
                u64::MAX
            } else {
                prior + 1
            };
            false
        }
    }

    /// The number of refresh attempts one refresher makes: the configured
    /// try count, capped by the roster size.
    pub fn refresh_retry_times(&self) -> (r: usize)
        ensures
            r == if self.config.table_entry_refresh_try_times
                > self.server_roster.members@.len() {
                self.server_roster.members@.len() as int
            } else {
                self.config.table_entry_refresh_try_times as int
            },
    {
        let server_size = self.server_roster.get_members().len();
        if self.config.table_entry_refresh_try_times > server_size {
            server_size
        } else {
            self.config.table_entry_refresh_try_times
        }
    }

    /// The linear-backoff pause before retry number `retry_num` of a
    /// table-entry refresh.
    pub fn refresh_backoff_ms(&self, retry_num: usize) -> (r: u64)
        ensures
            r as int == if self.config.table_entry_refresh_try_interval_ms * (retry_num + 1)
                > u64::MAX {
                u64::MAX as int
            } else {
                self.config.table_entry_refresh_try_interval_ms * (retry_num + 1)
            },
    {
        let step = self.config.table_entry_refresh_try_interval_ms as u128;
        proof {
            let s = step as int;
            let n = retry_num as int + 1;
            assert(s * n <= 0xFFFF_FFFF_FFFF_FFFF * 0x1_0000_0000_0000_0000) by (nonlinear_arith)
                requires
                    0 <= s <= 0xFFFF_FFFF_FFFF_FFFF,
                    0 < n <= 0x1_0000_0000_0000_0000,
            ;
        }
        let scaled = step * ((retry_num as u128) + 1);
        if scaled > u64::MAX as u128 {
            u64::MAX
        } else {
            scaled as u64
        }
    }
}

/// A sequence of addresses carries the key `(ip, port)`.
pub open spec fn spec_server_has_key(ss: Seq<ObServerAddr>, ip: Seq<char>, port: u32) -> bool {
    exists|j: int| 0 <= j < ss.len() && ss[j].ip@ == ip && ss[j].svr_port == port
}

/// Some active replica of the list lives at `(ip, port)`.
pub open spec fn spec_active_addr(
    rs: Seq<crate::location::ReplicaLocation>,
    ip: Seq<char>,
    port: u32,
) -> bool {
    exists|i: int|
        0 <= i < rs.len() && rs[i].spec_is_active() && rs[i].addr.ip@ == ip && rs[i].addr.svr_port
            == port
}

/// The active replica addresses of a location list, each backend's
/// first occurrence only, in order.
pub open spec fn spec_active_roster(
    rs: Seq<crate::location::ReplicaLocation>,
) -> Seq<ObServerAddr>
    decreases rs.len(),
{
    if rs.len() == 0 {
        Seq::empty()
    } else {
        let prefix = spec_active_roster(rs.drop_last());
        let r = rs.last();
        if r.spec_is_active() && !spec_server_has_key(prefix, r.addr.ip@, r.addr.svr_port) {
            prefix.push(r.addr)
        } else {
            prefix
        }
    }
}

/// Two address lists agree position by position in every field.
pub open spec fn spec_addr_list_eq(a: Seq<ObServerAddr>, b: Seq<ObServerAddr>) -> bool {
    a.len() == b.len() && (forall|i: int|
        0 <= i < a.len() ==> crate::roster::spec_addr_eq(#[trigger] a[i], b[i]))
}

/// Field-wise equal address lists carry the same keys.
proof fn lemma_addr_list_eq_same_keys(
    a: Seq<ObServerAddr>,
    b: Seq<ObServerAddr>,
    ip: Seq<char>,
    port: u32,
)
    requires
        spec_addr_list_eq(a, b),
    ensures
        spec_server_has_key(a, ip, port) == spec_server_has_key(b, ip, port),
{
    if spec_server_has_key(a, ip, port) {
        let j = choose|j: int| 0 <= j < a.len() && a[j].ip@ == ip && a[j].svr_port == port;
        assert(b[j].ip@ == ip && b[j].svr_port == port);
    }
    if spec_server_has_key(b, ip, port) {
        let j = choose|j: int| 0 <= j < b.len() && b[j].ip@ == ip && b[j].svr_port == port;
        assert(a[j].ip@ == ip && a[j].svr_port == port);
    }
}

/// A handle list carrying the key somewhere is found by the search.
proof fn lemma_handle_idx_exists(hs: Seq<BackendHandle>, ip: Seq<char>, port: u32, j: int)
    requires
        0 <= j < hs.len(),
        hs[j].addr.ip@ == ip,
        hs[j].addr.svr_port == port,
    ensures
        spec_has_handle(hs, ip, port),
    decreases hs.len(),
{
    if hs[0].addr.ip@ == ip && hs[0].addr.svr_port == port {
    } else {
        assert(hs.skip(1)[j - 1] == hs[j]);
        lemma_handle_idx_exists(hs.skip(1), ip, port, j - 1);
    }
}

/// Tests whether an address list already carries a backend's key.
fn addr_in(servers: &Vec<ObServerAddr>, addr: &ObServerAddr) -> (r: bool)
    ensures
        r == spec_server_has_key(servers@, addr.ip@, addr.svr_port),
{
    let mut i: usize = 0;
    while i < servers.len()
        invariant
            i <= servers@.len(),
            forall|j: int|
                0 <= j < i ==> !(servers@[j].ip@ == addr.ip@ && servers@[j].svr_port
                    == addr.svr_port),
        decreases servers@.len() - i,
    {
        if servers[i].key_eq(addr) {
            return true;
        }
        i = i + 1;
    }
    false
}

/// Every partition-key column the descriptor names is one of the fixed
/// HBase row-key columns K, Q, T.
pub open spec fn spec_desc_hbase_resolvable(d: crate::part_desc::PartDesc) -> bool {
    forall|k: int|
        0 <= k < d.part_columns@.len() ==> ((#[trigger] d.part_columns@[k])@ == "K"@
            || d.part_columns@[k]@ == "Q"@ || d.part_columns@[k]@ == "T"@)
}

/// Every column named by the entry's descriptors is one of the fixed
/// HBase row-key columns, so preparation against K/Q/T succeeds.
pub open spec fn spec_entry_hbase_resolvable(e: TableEntry) -> bool {
    match e.partition_info {
        Option::Some(info) => {
            &&& (info.first_part_desc matches Some(d) ==> spec_desc_hbase_resolvable(d))
            &&& (info.sub_part_desc matches Some(d) ==> spec_desc_hbase_resolvable(d))
        },
        Option::None => true,
    }
}

/// Resolving a column against the K/Q/T triple succeeds exactly for the
/// columns K, Q and T.
proof fn lemma_kqt_col_index(cols: Seq<String>, name: Seq<char>)
    requires
        cols.len() == 3,
        cols[0]@ == "K"@,
        cols[1]@ == "Q"@,
        cols[2]@ == "T"@,
    ensures
        (crate::table_entry::spec_col_index(cols, name) is Some) <==> (name == "K"@ || name
            == "Q"@ || name == "T"@),
{
    let c2 = cols.drop_last();
    let c1 = c2.drop_last();
    assert(cols.last() == cols[2]);
    assert(c2.last() == cols[1]);
    assert(c1.last() == cols[0]);
    assert(c1.drop_last().len() == 0);
    assert(crate::table_entry::spec_col_index(c1.drop_last(), name) is None);
    assert((crate::table_entry::spec_col_index(c1, name) is Some) <==> name == "K"@);
    assert((crate::table_entry::spec_col_index(c2, name) is Some) <==> (name == "K"@ || name
        == "Q"@));
}

/// Against the K/Q/T triple, resolvability of an entry's descriptors is
/// exactly the HBase column condition.
proof fn lemma_kqt_entry_resolvable(cols: Seq<String>, e: TableEntry)
    requires
        cols.len() == 3,
        cols[0]@ == "K"@,
        cols[1]@ == "Q"@,
        cols[2]@ == "T"@,
    ensures
        crate::table_entry::spec_entry_resolvable_with(e, cols) == spec_entry_hbase_resolvable(e),
{
    match e.partition_info {
        Option::Some(info) => {
            match info.first_part_desc {
                Option::Some(d) => {
                    lemma_kqt_desc_resolvable(cols, d);
                },
                Option::None => {},
            }
            match info.sub_part_desc {
                Option::Some(d) => {
                    lemma_kqt_desc_resolvable(cols, d);
                },
                Option::None => {},
            }
        },
        Option::None => {},
    }
}

/// Against the K/Q/T triple, resolvability of one descriptor is exactly
/// the HBase column condition.
proof fn lemma_kqt_desc_resolvable(cols: Seq<String>, d: crate::part_desc::PartDesc)
    requires
        cols.len() == 3,
        cols[0]@ == "K"@,
        cols[1]@ == "Q"@,
        cols[2]@ == "T"@,
    ensures
        crate::table_entry::spec_desc_resolvable(d, cols) == spec_desc_hbase_resolvable(d),
{
    assert forall|k: int| 0 <= k < d.part_columns@.len() implies (
    crate::table_entry::spec_col_index(cols, (#[trigger] d.part_columns@[k])@) is Some) == ((
    d.part_columns@[k])@ == "K"@ || (d.part_columns@[k])@ == "Q"@ || (d.part_columns@[k])@
        == "T"@) by {
        lemma_kqt_col_index(cols, (d.part_columns@[k])@);
    }
}

impl ObTableClient {
    /// The refresh of `entry` for `table_name` is accepted: an
    /// unpartitioned entry always installs, and a partitioned one needs
    /// its row-key element — the one registered through
    /// `add_row_key_element` in `Normal` mode, the fixed K/Q/T triple in
    /// `HBase` mode — to resolve every partition-key column its
    /// descriptors name.
    pub open spec fn spec_refresh_accepts(
        self,
        table_name: Seq<char>,
        entry: TableEntry,
    ) -> bool {
        if !entry.spec_is_partition_table() {
            true
        } else {
            match self.running_mode {
                RunningMode::Normal => spec_has_table(self.tables@, table_name) && (
                spec_table_at(self.tables@, table_name).row_key_element matches Some(cols)
                    && crate::table_entry::spec_entry_resolvable_with(entry, cols@)),
                RunningMode::HBase => spec_entry_hbase_resolvable(entry),
            }
        }
    }
}

impl ObTableClient {
    /// Prepares a freshly loaded table entry and installs it in the
    /// cache.
    ///
    /// A partitioned table needs a row-key element first: in `Normal`
    /// mode the one registered through `add_row_key_element` (a missing
    /// registration is `NotFound`), in `HBase` mode the fixed `K`/`Q`/`T`
    /// triple. The entry's descriptors are then prepared against it; on
    /// success the entry replaces the cached one and the global
    /// refresh-failure counter restarts.
    pub fn refresh_table_entry(&mut self, table_name: &String, entry: TableEntry) -> (r: Result<
        (),
        Error,
    >)
        requires
            old(self).wf(),
            entry.spec_wf_scheme(),
        ensures
            final(self).wf(),
            final(self).table_roster == old(self).table_roster,
            final(self).server_roster == old(self).server_roster,
            final(self).identity == old(self).identity,
            final(self).config == old(self).config,
            final(self).running_mode == old(self).running_mode,
            final(self).initialized == old(self).initialized,
            final(self).closed == old(self).closed,
            final(self).last_refresh_metadata_ts == old(self).last_refresh_metadata_ts,
            r is Ok <==> old(self).spec_refresh_accepts(table_name@, entry),
            match r {
                Ok(()) => {
                    &&& final(self).table_entry_refresh_continuous_failure_count == 0
                    &&& spec_has_table(final(self).tables@, table_name@)
                    &&& spec_table_at(final(self).tables@, table_name@).entry matches Some(e2)
                        && ({
                        &&& e2.spec_routable()
                        &&& !entry.spec_is_partition_table() ==> e2 == entry
                        &&& entry.spec_is_partition_table() && old(self).running_mode
                            is Normal ==> ({
                            &&& spec_has_table(old(self).tables@, table_name@)
                            &&& spec_table_at(
                                old(self).tables@,
                                table_name@,
                            ).row_key_element matches Some(cols)
                                && crate::table_entry::spec_prepared_entry(entry, e2, cols@)
                        })
                        &&& entry.spec_is_partition_table() && old(self).running_mode
                            is HBase ==> ({
                            &&& e2.row_key_element@.len() == 3
                            &&& e2.row_key_element@[0]@ == "K"@
                            &&& e2.row_key_element@[1]@ == "Q"@
                            &&& e2.row_key_element@[2]@ == "T"@
                            &&& crate::table_entry::spec_prepared_entry(
                                entry,
                                e2,
                                e2.row_key_element@,
                            )
                        })
                    })
                    &&& match spec_table_idx(old(self).tables@, table_name@) {
                        Option::Some(i) => final(self).tables@.len() == old(self).tables@.len()
                            && (forall|j: int|
                            0 <= j < old(self).tables@.len() && j != i ==> final(self).tables@[j]
                                == old(self).tables@[j]) && final(self).tables@[i].name == old(
                            self,
                        ).tables@[i].name && final(self).tables@[i].row_key_element == old(
                            self,
                        ).tables@[i].row_key_element && final(self).tables@[i].lock_held == old(
                            self,
                        ).tables@[i].lock_held && final(self).tables@[i].continuous_failures
                            == old(self).tables@[i].continuous_failures,
                        Option::None => final(self).tables@.len() == old(self).tables@.len() + 1
                            && final(self).tables@.subrange(0, old(self).tables@.len() as int)
                            == old(self).tables@ && final(self).tables@.last().name@
                            == table_name@,
                    }
                },
                Err(e) => {
                    &&& Self::spec_unchanged(*old(self), *final(self))
                    &&& (e.spec_code() is NotFound || e.spec_code() is PartitionError)
                    &&& (e.spec_code() is NotFound <==> ({
                        &&& entry.spec_is_partition_table()
                        &&& old(self).running_mode is Normal
                        &&& !(spec_has_table(old(self).tables@, table_name@) && spec_table_at(
                            old(self).tables@,
                            table_name@,
                        ).row_key_element is Some)
                    }))
                    &&& (e.spec_code() is NotFound ==> (e matches Error::Common(c, m) && m@
                        == "Partition table must has row key element"@))
                },
            },
    {
        let ghost gentry = entry;
        let mut entry = entry;
        if entry.is_partition_table() {
            let ghost gcols: Seq<String>;
            match self.running_mode {
                RunningMode::Normal => {
                    proof {
                        lemma_table_idx_valid(self.tables@, table_name@);
                    }
                    let cols_opt: Option<Vec<String>> = match self.find_table(table_name) {
                        Some(i) => {
                            match &self.tables[i].row_key_element {
                                Some(c) => Some(c.clone()),
                                None => None,
                            }
                        },
                        None => None,
                    };
                    match cols_opt {
                        Some(c) => {
                            proof {
                                gcols = c@;
                            }
                            entry.set_row_key_element(c);
                        },
                        None => {
                            return Err(common_err(
                                CommonErrCode::NotFound,
                                "Partition table must has row key element",
                            ));
                        },
                    }
                },
                RunningMode::HBase => {
                    let mut cols: Vec<String> = Vec::new();
                    cols.push("K".to_owned());
                    cols.push("Q".to_owned());
                    cols.push("T".to_owned());
                    proof {
                        gcols = cols@;
                    }
                    entry.set_row_key_element(cols);
                },
            }
            proof {
                if old(self).running_mode is HBase {
                    lemma_kqt_entry_resolvable(gcols, gentry);
                }
            }
            match entry.prepare() {
                Ok(()) => {
                    proof {
                        assert(old(self).spec_refresh_accepts(table_name@, gentry));
                    }
                },
                Err(e) => {
                    proof {
                        assert(!crate::table_entry::spec_entry_resolvable_with(gentry, gcols));
                        assert(!old(self).spec_refresh_accepts(table_name@, gentry));
                    }
                    return Err(e);
                },
            }
        }
        proof {
            lemma_table_idx_valid(self.tables@, table_name@);
        }
        match self.find_table(table_name) {
            Some(i) => {
                let mut rec = self.tables.remove(i);
                rec.entry = Some(entry);
                let ghost grec = rec;
                self.tables.insert(i, rec);
                proof {
                    assert(self.tables@ =~= old(self).tables@.update(i as int, grec));
                    lemma_table_idx_of_update(old(self).tables@, self.tables@, i as int);
                }
            },
            None => {
                let rec = TableRecord {
                    name: table_name.clone(),
                    entry: Some(entry),
                    row_key_element: None,
                    lock_held: false,
                    continuous_failures: 0,
                };
                self.tables.push(rec);
                proof {
                    assert(self.tables@.subrange(0, old(self).tables@.len() as int) =~= old(
                        self,
                    ).tables@);
                    lemma_names_of_push(old(self).tables@, self.tables@, table_name@);
                    lemma_table_idx_found(self.tables@, table_name@, old(
                        self,
                    ).tables@.len() as int);
                }
            },
        }
        self.table_entry_refresh_continuous_failure_count = 0;
        Ok(())
    }

    /// Reconciles the backend-handle registry and the server roster with
    /// a freshly loaded root catalog entry, and stamps the refresh
    /// instant.
    ///
    /// Afterwards the registry's key set equals the set of active replica
    /// addresses of the root entry, the roster holds exactly those
    /// addresses, and its cached maximum priority is 0. The runtime calls
    /// this under its metadata-refresh mutex, after the short-circuit
    /// test `is_already_refreshed`.
    pub fn sync_refresh_metadata(&mut self, root_entry: &TableEntry, now_ms: u64)
        requires
            old(self).wf(),
        ensures
            final(self).wf(),
            final(self).tables == old(self).tables,
            final(self).config == old(self).config,
            final(self).running_mode == old(self).running_mode,
            final(self).initialized == old(self).initialized,
            final(self).closed == old(self).closed,
            final(self).table_entry_refresh_continuous_failure_count == old(
                self,
            ).table_entry_refresh_continuous_failure_count,
            final(self).last_refresh_metadata_ts == now_ms,
            final(self).server_roster.max_priority == 0,
            forall|ip: Seq<char>, port: u32|
                #![trigger spec_has_handle(final(self).table_roster@, ip, port)]
                spec_has_handle(final(self).table_roster@, ip, port) == spec_active_addr(
                    root_entry.table_location@,
                    ip,
                    port,
                ),
            final(self).server_roster.members@.len() == final(self).table_roster@.len(),
            forall|i: int|
                0 <= i < final(self).table_roster@.len() ==> ({
                    let m = final(self).server_roster.members@[i];
                    let h = #[trigger] final(self).table_roster@[i];
                    m.ip@ == h.addr.ip@ && m.svr_port == h.addr.svr_port
                }),
            spec_addr_list_eq(
                final(self).server_roster.members@,
                spec_active_roster(root_entry.table_location@),
            ),
    {
        let locs = &root_entry.table_location;
        let mut servers: Vec<ObServerAddr> = Vec::new();
        let mut i: usize = 0;
        proof {
            assert(locs@.subrange(0, 0) =~= Seq::<crate::location::ReplicaLocation>::empty());
        }
        while i < locs.len()
            invariant
                i <= locs@.len(),
                locs@ == root_entry.table_location@,
                spec_addr_list_eq(servers@, spec_active_roster(locs@.subrange(0, i as int))),
                forall|a: int, b: int|
                    0 <= a < b < servers@.len() ==> !(servers@[a].ip@ == servers@[b].ip@
                        && servers@[a].svr_port == servers@[b].svr_port),
                forall|j: int|
                    #![trigger servers@[j]]
                    0 <= j < servers@.len() ==> spec_active_addr(
                        locs@.subrange(0, i as int),
                        servers@[j].ip@,
                        servers@[j].svr_port,
                    ),
                forall|k: int|
                    0 <= k < i && locs@[k].spec_is_active() ==> spec_server_has_key(
                        servers@,
                        locs@[k].addr.ip@,
                        locs@[k].addr.svr_port,
                    ),
            decreases locs@.len() - i,
        {
            let ghost pre_servers = servers@;
            if locs[i].is_active() {
                if !addr_in(&servers, locs[i].addr()) {
                    servers.push(locs[i].addr.clone());
                }
            }
            proof {
                let pre_slice = locs@.subrange(0, i as int);
                let post_slice = locs@.subrange(0, i as int + 1);
                assert(post_slice.drop_last() =~= pre_slice);
                assert(post_slice.last() == locs@[i as int]);
                lemma_addr_list_eq_same_keys(
                    pre_servers,
                    spec_active_roster(pre_slice),
                    locs@[i as int].addr.ip@,
                    locs@[i as int].addr.svr_port,
                );
                assert(spec_addr_list_eq(servers@, spec_active_roster(post_slice)));
            }
            proof {
                assert forall|j: int| 0 <= j < servers@.len() implies spec_active_addr(
                    locs@.subrange(0, i as int + 1),
                    servers@[j].ip@,
                    servers@[j].svr_port,
                ) by {
                    if j < pre_servers.len() {
                        assert(spec_active_addr(
                            locs@.subrange(0, i as int),
                            servers@[j].ip@,
                            servers@[j].svr_port,
                        ));
                        let w = choose|w: int|
                            0 <= w < locs@.subrange(0, i as int).len() && locs@.subrange(
                                0,
                                i as int,
                            )[w].spec_is_active() && locs@.subrange(0, i as int)[w].addr.ip@
                                == servers@[j].ip@ && locs@.subrange(0, i as int)[w].addr.svr_port
                                == servers@[j].svr_port;
                        assert(locs@.subrange(0, i as int)[w] == locs@.subrange(
                            0,
                            i as int + 1,
                        )[w]);
                    } else {
                        assert(locs@.subrange(0, i as int + 1)[i as int] == locs@[i as int]);
                    }
                }
                assert forall|k: int|
                    0 <= k < i + 1 && locs@[k].spec_is_active() implies spec_server_has_key(
                    servers@,
                    locs@[k].addr.ip@,
                    locs@[k].addr.svr_port,
                ) by {
                    if k < i {
                        assert(spec_server_has_key(
                            pre_servers,
                            locs@[k].addr.ip@,
                            locs@[k].addr.svr_port,
                        ));
                        let w = choose|w: int|
                            0 <= w < pre_servers.len() && pre_servers[w].ip@ == locs@[k].addr.ip@
                                && pre_servers[w].svr_port == locs@[k].addr.svr_port;
                        assert(servers@[w] == pre_servers[w]);
                    } else {
                        if servers@.len() == pre_servers.len() + 1 {
                            let w = servers@.len() - 1;
                            assert(servers@[w].ip@ == locs@[i as int].addr.ip@);
                            assert(servers@[w].svr_port == locs@[i as int].addr.svr_port);
                        } else {
                            assert(servers@ == pre_servers);
                            assert(spec_server_has_key(
                                pre_servers,
                                locs@[i as int].addr.ip@,
                                locs@[i as int].addr.svr_port,
                            ));
                        }
                    }
                }
            }
            i = i + 1;
        }
        proof {
            assert(locs@.subrange(0, locs@.len() as int) =~= locs@);
        }
        let mut handles: Vec<BackendHandle> = Vec::new();
        let mut j: usize = 0;
        while j < servers.len()
            invariant
                j <= servers@.len(),
                handles@.len() == j,
                forall|k: int|
                    0 <= k < j ==> handles@[k].addr.ip@ == servers@[k].ip@
                        && handles@[k].addr.svr_port == servers@[k].svr_port,
            decreases servers@.len() - j,
        {
            handles.push(BackendHandle { addr: servers[j].clone() });
            j = j + 1;
        }
        proof {
            assert forall|ip: Seq<char>, port: u32|
                #![trigger spec_has_handle(handles@, ip, port)]
                spec_has_handle(handles@, ip, port) == spec_active_addr(
                root_entry.table_location@,
                ip,
                port,
            ) by {
                if spec_has_handle(handles@, ip, port) {
                    lemma_handle_idx_valid(handles@, ip, port);
                    let hi = spec_handle_idx(handles@, ip, port)->Some_0;
                    assert(spec_active_addr(
                        root_entry.table_location@,
                        servers@[hi].ip@,
                        servers@[hi].svr_port,
                    ));
                }
                if spec_active_addr(root_entry.table_location@, ip, port) {
                    let k = choose|k: int|
                        0 <= k < root_entry.table_location@.len()
                            && root_entry.table_location@[k].spec_is_active()
                            && root_entry.table_location@[k].addr.ip@ == ip
                            && root_entry.table_location@[k].addr.svr_port == port;
                    assert(spec_server_has_key(servers@, ip, port));
                    let w = choose|w: int|
                        0 <= w < servers@.len() && servers@[w].ip@ == ip && servers@[w].svr_port
                            == port;
                    lemma_handle_idx_exists(handles@, ip, port, w);
                }
            }
        }
        proof {
            assert forall|a: int, b: int|
                0 <= a < b < handles@.len() implies !spec_addr_key_eq(
                handles@[a].addr,
                handles@[b].addr,
            ) by {
                assert(!(servers@[a].ip@ == servers@[b].ip@ && servers@[a].svr_port
                    == servers@[b].svr_port));
            }
        }
        proof {
            assert(spec_addr_list_eq(
                servers@,
                spec_active_roster(root_entry.table_location@),
            ));
        }
        self.table_roster = handles;
        self.server_roster.reset(servers);
        self.last_refresh_metadata_ts = now_ms;
    }

    /// Builds the initial backend-handle registry and server roster from
    /// the root catalog entry loaded at startup.
    pub fn init_metadata(&mut self, root_entry: &TableEntry, now_ms: u64)
        requires
            old(self).wf(),
        ensures
            final(self).wf(),
            final(self).tables == old(self).tables,
            final(self).config == old(self).config,
            final(self).running_mode == old(self).running_mode,
            final(self).initialized == old(self).initialized,
            final(self).closed == old(self).closed,
            final(self).last_refresh_metadata_ts == now_ms,
            final(self).server_roster.max_priority == 0,
            forall|ip: Seq<char>, port: u32|
                #![trigger spec_has_handle(final(self).table_roster@, ip, port)]
                spec_has_handle(final(self).table_roster@, ip, port) == spec_active_addr(
                    root_entry.table_location@,
                    ip,
                    port,
                ),
            spec_addr_list_eq(
                final(self).server_roster.members@,
                spec_active_roster(root_entry.table_location@),
            ),
    {
        self.sync_refresh_metadata(root_entry, now_ms);
    }

    /// Whether the cluster metadata was refreshed within the configured
    /// interval, so that a new refresh can be skipped.
    pub fn is_already_refreshed(&self, now_ms: u64) -> (r: bool)
        ensures
            r == (now_ms - self.last_refresh_metadata_ts
                < self.config.metadata_refresh_interval_ms),
    {
        (now_ms as i128) - (self.last_refresh_metadata_ts as i128) < (
        self.config.metadata_refresh_interval_ms as i128)
    }
}

/// The partition id a row key routes to under an entry: 0 for
/// unpartitioned and level-zero tables, the first-level descriptor's id
/// at level one, and the composed two-level id at level two. Nothing when
/// the metadata is malformed or a descriptor cannot place the key.
pub open spec fn spec_partition_id(entry: TableEntry, row_key: Seq<Value>) -> Option<i64> {
    if !entry.spec_is_partition_table() {
        Some(0i64)
    } else {
        match entry.partition_info {
            Option::None => None,
            Option::Some(info) => match info.level {
                crate::location::ObPartitionLevel::Zero => Some(0i64),
                crate::location::ObPartitionLevel::One => match info.first_part_desc {
                    Option::None => None,
                    Option::Some(d) => d.spec_get_part_id(row_key),
                },
                crate::location::ObPartitionLevel::Two => match (
                    info.first_part_desc,
                    info.sub_part_desc,
                ) {
                    (Option::Some(f), Option::Some(s)) => match (
                        f.spec_get_part_id(row_key),
                        s.spec_get_part_id(row_key),
                    ) {
                        (Option::Some(id1), Option::Some(id2)) =>
                            Some(
                            crate::ob_part_constants::spec_generate_part_id(id1, id2),
                        ),
                        _ => None,
                    },
                    _ => None,
                },
                crate::location::ObPartitionLevel::Unknown => None,
            },
        }
    }
}

/// The current leader replica of partition `part_id` under an entry.
pub open spec fn spec_leader_of(
    entry: TableEntry,
    part_id: i64,
) -> Option<crate::location::ReplicaLocation> {
    match crate::table_entry::spec_first_part_location(entry.partition_entry@, part_id) {
        Option::Some(loc) => crate::location::spec_first_leader(loc.replicas@),
        Option::None => None,
    }
}

impl ObTableClient {
    /// Computes the partition id of a row key under an entry: exactly
    /// `spec_partition_id`, a `PartitionError` where it is undefined.
    pub fn get_partition(&self, entry: &TableEntry, row_key: &[Value]) -> (r: Result<i64, Error>)
        requires
            entry.spec_routable(),
        ensures
            match r {
                Ok(id) => spec_partition_id(*entry, row_key@) == Some(id) && 0 <= id,
                Err(e) => spec_partition_id(*entry, row_key@) is None && e.spec_code()
                    is PartitionError,
            },
    {
        if !entry.is_partition_table() {
            return Ok(0);
        }
        match &entry.partition_info {
            None => Err(common_err(
                CommonErrCode::PartitionError,
                "partition information is missing from the table entry",
            )),
            Some(info) => {
                match info.level {
                    crate::location::ObPartitionLevel::Zero => Ok(0),
                    crate::location::ObPartitionLevel::One => {
                        match &info.first_part_desc {
                            None => Err(common_err(
                                CommonErrCode::PartitionError,
                                "the first-level partition descriptor is missing",
                            )),
                            Some(d) => {
                                proof {
                                    crate::part_desc::lemma_part_id_in_range(*d, row_key@);
                                }
                                d.get_part_id(row_key)
                            },
                        }
                    },
                    crate::location::ObPartitionLevel::Two => {
                        match (&info.first_part_desc, &info.sub_part_desc) {
                            (Some(f), Some(s)) => {
                                proof {
                                    crate::part_desc::lemma_part_id_in_range(*f, row_key@);
                                    crate::part_desc::lemma_part_id_in_range(*s, row_key@);
                                }
                                let id1 = f.get_part_id(row_key)?;
                                let id2 = s.get_part_id(row_key)?;
                                proof {
                                    crate::ob_part_constants::lemma_part_id_nonnegative(id1, id2);
                                }
                                Ok(crate::ob_part_constants::generate_part_id(id1, id2))
                            },
                            _ => Err(common_err(
                                CommonErrCode::PartitionError,
                                "a two-level partition descriptor is missing",
                            )),
                        }
                    },
                    crate::location::ObPartitionLevel::Unknown => Err(common_err(
                        CommonErrCode::PartitionError,
                        "the partition level of the table entry is unknown",
                    )),
                }
            },
        }
    }

    /// The leader replica of one partition under an entry.
    pub fn get_partition_leader<'a>(&self, entry: &'a TableEntry, part_id: i64) -> (r: Option<
        &'a crate::location::ReplicaLocation,
    >)
        ensures
            match r {
                Some(l) => spec_leader_of(*entry, part_id) == Some(*l),
                None => spec_leader_of(*entry, part_id) is None,
            },
    {
        match entry.get_partition_location_with_part_id(part_id) {
            Some(loc) => loc.leader(),
            None => None,
        }
    }

    /// Returns the registered handle for a backend address, creating and
    /// registering one first when none exists.
    pub(crate) fn get_or_create_handle(&mut self, addr: &ObServerAddr) -> (h: BackendHandle)
        requires
            old(self).wf(),
        ensures
            final(self).wf(),
            final(self).tables == old(self).tables,
            final(self).config == old(self).config,
            final(self).running_mode == old(self).running_mode,
            final(self).initialized == old(self).initialized,
            final(self).closed == old(self).closed,
            final(self).server_roster == old(self).server_roster,
            final(self).last_refresh_metadata_ts == old(self).last_refresh_metadata_ts,
            final(self).table_entry_refresh_continuous_failure_count == old(
                self,
            ).table_entry_refresh_continuous_failure_count,
            h.addr.ip@ == addr.ip@,
            h.addr.svr_port == addr.svr_port,
            spec_has_handle(final(self).table_roster@, addr.ip@, addr.svr_port),
            final(self).table_roster@.len() >= old(self).table_roster@.len(),
            final(self).table_roster@.subrange(0, old(self).table_roster@.len() as int) == old(
                self,
            ).table_roster@,
            forall|ip: Seq<char>, port: u32|
                spec_has_handle(old(self).table_roster@, ip, port) ==> #[trigger] spec_has_handle(
                    final(self).table_roster@,
                    ip,
                    port,
                ),
    {
        proof {
            lemma_handle_idx_valid(self.table_roster@, addr.ip@, addr.svr_port);
        }
        match self.find_handle(addr) {
            Some(i) => {
                proof {
                    assert(self.table_roster@.subrange(0, self.table_roster@.len() as int)
                        =~= self.table_roster@);
                }
                self.table_roster[i].clone()
            },
            None => {
                let h = BackendHandle { addr: addr.clone() };
                let ret = h.clone();
                self.table_roster.push(h);
                proof {
                    assert(self.table_roster@.subrange(0, old(self).table_roster@.len() as int)
                        =~= old(self).table_roster@);
                    lemma_handle_idx_exists(
                        self.table_roster@,
                        addr.ip@,
                        addr.svr_port,
                        self.table_roster@.len() - 1,
                    );
                    assert forall|ip: Seq<char>, port: u32|
                        spec_has_handle(old(self).table_roster@, ip, port)
                            implies #[trigger] spec_has_handle(
                        self.table_roster@,
                        ip,
                        port,
                    ) by {
                        lemma_handle_idx_valid(old(self).table_roster@, ip, port);
                        let w = spec_handle_idx(old(self).table_roster@, ip, port)->Some_0;
                        assert(self.table_roster@[w] == old(self).table_roster@[w]);
                        lemma_handle_idx_exists(self.table_roster@, ip, port, w);
                    }
                    assert forall|a: int, b: int|
                        0 <= a < b < self.table_roster@.len() implies !spec_addr_key_eq(
                        self.table_roster@[a].addr,
                        self.table_roster@[b].addr,
                    ) by {
                        if b == self.table_roster@.len() - 1 {
                            if spec_addr_key_eq(
                                self.table_roster@[a].addr,
                                self.table_roster@[b].addr,
                            ) {
                                lemma_handle_idx_exists(
                                    old(self).table_roster@,
                                    addr.ip@,
                                    addr.svr_port,
                                    a,
                                );
                            }
                        } else {
                            assert(self.table_roster@[a] == old(self).table_roster@[a]);
                            assert(self.table_roster@[b] == old(self).table_roster@[b]);
                        }
                    }
                }
                ret
            },
        }
    }

    /// Routes one row key: resolves its partition id against the cached
    /// entry of the table and returns it with a handle to the partition
    /// leader's backend, registering the handle first if need be.
    ///
    /// The cached entry must be present, and fresh when `refresh` asks
    /// for freshness; otherwise `NotFound` tells the caller to refresh
    /// the entry and try again. The partition id returned is exactly the
    /// one `spec_partition_id` gives for the served entry.
    pub fn get_table(
        &mut self,
        table_name: &String,
        row_key: &[Value],
        refresh: bool,
        now_ms: u64,
    ) -> (r: Result<(i64, BackendHandle), Error>)
        requires
            old(self).wf(),
        ensures
            final(self).wf(),
            final(self).tables == old(self).tables,
            final(self).config == old(self).config,
            final(self).running_mode == old(self).running_mode,
            final(self).initialized == old(self).initialized,
            final(self).closed == old(self).closed,
            final(self).server_roster == old(self).server_roster,
            final(self).last_refresh_metadata_ts == old(self).last_refresh_metadata_ts,
            final(self).table_entry_refresh_continuous_failure_count == old(
                self,
            ).table_entry_refresh_continuous_failure_count,
            match r {
                Ok((part_id, h)) => ({
                    let e = spec_table_at(old(self).tables@, table_name@).entry->Some_0;
                    &&& old(self).spec_cache_usable(table_name@, refresh, now_ms)
                    &&& spec_partition_id(e, row_key@) == Some(part_id)
                    &&& spec_leader_of(e, part_id) matches Some(l) && h.addr.ip@ == l.addr.ip@
                        && h.addr.svr_port == l.addr.svr_port
                    &&& spec_has_handle(final(self).table_roster@, h.addr.ip@, h.addr.svr_port)
                }),
                Err(e) => ({
                    &&& final(self).table_roster == old(self).table_roster
                    &&& match e.spec_code() {
                        CommonErrCode::NotFound => !old(self).spec_cache_usable(
                            table_name@,
                            refresh,
                            now_ms,
                        ) || ({
                            let en = spec_table_at(old(self).tables@, table_name@).entry->Some_0;
                            spec_partition_id(en, row_key@) matches Some(pid) && spec_leader_of(
                                en,
                                pid,
                            ) is None
                        }),
                        CommonErrCode::PartitionError => ({
                            let en = spec_table_at(old(self).tables@, table_name@).entry->Some_0;
                            spec_partition_id(en, row_key@) is None
                        }),
                        _ => false,
                    }
                }),
            },
    {
        proof {
            lemma_table_idx_valid(self.tables@, table_name@);
        }
        let (part_id, leader_addr) = {
            let i = match self.find_table(table_name) {
                Some(i) => i,
                None => {
                    return Err(common_err(
                        CommonErrCode::NotFound,
                        "no metadata entry is cached for this table; refresh it first",
                    ));
                },
            };
            let e = match &self.tables[i].entry {
                Some(e) => e,
                None => {
                    return Err(common_err(
                        CommonErrCode::NotFound,
                        "no metadata entry is cached for this table; refresh it first",
                    ));
                },
            };
            if refresh && self.need_refresh_table_entry(e, now_ms) {
                return Err(common_err(
                    CommonErrCode::NotFound,
                    "the cached metadata entry of this table is stale; refresh it first",
                ));
            }
            let part_id = self.get_partition(e, row_key)?;
            let leader = match self.get_partition_leader(e, part_id) {
                Some(l) => l,
                None => {
                    return Err(common_err(
                        CommonErrCode::NotFound,
                        "the partition has no leader replica in the cached entry",
                    ));
                },
            };
            (part_id, leader.addr.clone())
        };
        let h = self.get_or_create_handle(&leader_addr);
        Ok((part_id, h))
    }
}

/// The partition ids a scan over `[start, end]` must visit under an
/// entry: partition 0 alone for unpartitioned and level-zero tables, the
/// first-level descriptor's expansion at level one, and nothing where
/// the expansion is undefined.
pub open spec fn spec_scan_ids(
    e: TableEntry,
    start: Seq<Value>,
    start_inclusive: bool,
    end: Seq<Value>,
    end_inclusive: bool,
) -> Seq<i64> {
    if !e.spec_is_partition_table() || e.spec_level() is Zero {
        seq![0i64]
    } else {
        match e.partition_info {
            Option::Some(info) => match info.first_part_desc {
                Option::Some(d) => match d.spec_get_part_ids(
                    start,
                    start_inclusive,
                    end,
                    end_inclusive,
                ) {
                    Option::Some(pids) => pids,
                    Option::None => Seq::empty(),
                },
                Option::None => Seq::empty(),
            },
            Option::None => Seq::empty(),
        }
    }
}

/// The expansion of a scan over `[start, end]` is defined for the entry:
/// the table is unpartitioned or level zero, or it is level one with a
/// first-level descriptor whose expansion resolves.
pub open spec fn spec_scan_defined(
    e: TableEntry,
    start: Seq<Value>,
    start_inclusive: bool,
    end: Seq<Value>,
    end_inclusive: bool,
) -> bool {
    if !e.spec_is_partition_table() || e.spec_level() is Zero {
        true
    } else if e.spec_level() is One {
        e.partition_info matches Some(info) && (info.first_part_desc matches Some(d)
            && d.spec_get_part_ids(start, start_inclusive, end, end_inclusive) is Some)
    } else {
        false
    }
}

/// Every listed partition has a leader under the entry.
pub open spec fn spec_all_leaders(e: TableEntry, ids: Seq<i64>) -> bool {
    forall|j: int| 0 <= j < ids.len() ==> spec_leader_of(e, #[trigger] ids[j]) is Some
}

/// Every listed partition's leader has a handle registered in the
/// backend registry.
pub open spec fn spec_all_handles(
    roster: Seq<BackendHandle>,
    e: TableEntry,
    ids: Seq<i64>,
) -> bool {
    forall|j: int|
        0 <= j < ids.len() ==> spec_leader_of(e, #[trigger] ids[j]) is Some && spec_has_handle(
            roster,
            spec_leader_of(e, ids[j])->Some_0.addr.ip@,
            spec_leader_of(e, ids[j])->Some_0.addr.svr_port,
        )
}

/// A scan over the entry fails with `PartitionError`: the partition
/// level is two or unknown, or the first-level expansion is undefined.
pub open spec fn spec_scan_partition_error(
    e: TableEntry,
    start: Seq<Value>,
    start_inclusive: bool,
    end: Seq<Value>,
    end_inclusive: bool,
) -> bool {
    e.spec_is_partition_table() && ((!(e.spec_level() is Zero) && !(e.spec_level() is One)) || (
    e.spec_level() is One && (e.partition_info matches Some(info) && (
    info.first_part_desc matches Some(d) && d.spec_get_part_ids(
        start,
        start_inclusive,
        end,
        end_inclusive,
    ) is None))))
}

/// A scan over the entry fails with `NotFound` at the metadata: level
/// one without a first-level descriptor, or a listed partition without a
/// leader.
pub open spec fn spec_scan_not_found(
    e: TableEntry,
    start: Seq<Value>,
    start_inclusive: bool,
    end: Seq<Value>,
    end_inclusive: bool,
) -> bool {
    ||| (e.spec_is_partition_table() && e.spec_level() is One && (
    e.partition_info matches Some(info) && info.first_part_desc is None))
    ||| (spec_scan_defined(e, start, start_inclusive, end, end_inclusive) && !spec_all_leaders(
        e,
        spec_scan_ids(e, start, start_inclusive, end, end_inclusive),
    ))
}

impl ObTableClient {
    /// Appends the leader of partition `part_id` to the result list;
    /// `NotFound` when the entry records no location or no leader for it.
    fn fill_partition_location_with_part_id(
        &self,
        result: &mut Vec<(i64, crate::location::ReplicaLocation)>,
        entry: &TableEntry,
        part_id: i64,
    ) -> (r: Result<(), Error>)
        ensures
            match r {
                Ok(()) => ({
                    &&& final(result)@.len() == old(result)@.len() + 1
                    &&& final(result)@.subrange(0, old(result)@.len() as int) == old(result)@
                    &&& final(result)@.last().0 == part_id
                    &&& spec_leader_of(*entry, part_id) matches Some(l)
                        && crate::location::spec_replica_eq(final(result)@.last().1, l)
                }),
                Err(e) => final(result)@ == old(result)@ && e.spec_code() is NotFound
                    && spec_leader_of(*entry, part_id) is None,
            },
    {
        match self.get_partition_leader(entry, part_id) {
            Some(leader) => {
                let cloned = leader.clone();
                result.push((part_id, cloned));
                proof {
                    assert(final(result)@.subrange(0, old(result)@.len() as int) =~= old(
                        result,
                    )@);
                }
                Ok(())
            },
            None => Err(common_err(
                CommonErrCode::NotFound,
                "the partition has no leader replica in the cached entry",
            )),
        }
    }

    /// Resolves a scan range to the leaders of the partitions it must
    /// visit: partition 0 for unpartitioned and level-zero tables, the
    /// first-level descriptor's expansion at level one. Range scans over
    /// two-level partitioned tables are not supported and fail with a
    /// `PartitionError`.
    pub fn get_partition_leaders(
        &self,
        entry: &TableEntry,
        start: &[Value],
        start_inclusive: bool,
        end: &[Value],
        end_inclusive: bool,
    ) -> (r: Result<Vec<(i64, crate::location::ReplicaLocation)>, Error>)
        requires
            entry.spec_routable(),
        ensures
            r is Ok <==> spec_scan_defined(*entry, start@, start_inclusive, end@, end_inclusive)
                && spec_all_leaders(
                *entry,
                spec_scan_ids(*entry, start@, start_inclusive, end@, end_inclusive),
            ),
            match r {
                Ok(v) => if !entry.spec_is_partition_table() || entry.spec_level() is Zero {
                    v@.len() == 1 && v@[0].0 == 0 && (spec_leader_of(*entry, 0) matches Some(l)
                        && crate::location::spec_replica_eq(v@[0].1, l))
                } else {
                    (entry.spec_level() is One) && match entry.partition_info {
                        Option::Some(info) => match info.first_part_desc {
                            Option::Some(d) => match d.spec_get_part_ids(
                                start@,
                                start_inclusive,
                                end@,
                                end_inclusive,
                            ) {
                                Option::Some(pids) => v@.len() == pids.len() && (forall|k: int|
                                    0 <= k < pids.len() ==> (#[trigger] v@[k]).0 == pids[k] && (
                                    spec_leader_of(*entry, pids[k]) matches Some(l)
                                        && crate::location::spec_replica_eq(v@[k].1, l))),
                                Option::None => false,
                            },
                            Option::None => false,
                        },
                        Option::None => false,
                    }
                },
                Err(e) => {
                    &&& (e.spec_code() is NotFound || e.spec_code() is PartitionError)
                    &&& (e.spec_code() is NotFound <==> spec_scan_not_found(
                        *entry,
                        start@,
                        start_inclusive,
                        end@,
                        end_inclusive,
                    ))
                    &&& (e.spec_code() is PartitionError <==> spec_scan_partition_error(
                        *entry,
                        start@,
                        start_inclusive,
                        end@,
                        end_inclusive,
                    ))
                },
            },
            entry.spec_is_partition_table() && !(entry.spec_level() is Zero) && !(
            entry.spec_level() is One) ==> (r matches Err(e) && e matches Error::Common(c, m)
                && c is PartitionError && m@ == "Unsupported partition level two right now"@),
    {
        let ghost gsids = spec_scan_ids(*entry, start@, start_inclusive, end@, end_inclusive);
        let mut result: Vec<(i64, crate::location::ReplicaLocation)> = Vec::new();
        if !entry.is_partition_table() || entry.is_partition_level(
            crate::location::ObPartitionLevel::Zero,
        ) {
            proof {
                assert(gsids =~= seq![0i64]);
            }
            match self.fill_partition_location_with_part_id(&mut result, entry, 0) {
                Ok(()) => {
                    proof {
                        assert(result@[0] == result@.last());
                        assert forall|j: int|
                            0 <= j < gsids.len() implies spec_leader_of(
                            *entry,
                            #[trigger] gsids[j],
                        ) is Some by {
                            assert(gsids[j] == 0);
                        }
                    }
                },
                Err(e) => {
                    proof {
                        assert(gsids[0] == 0);
                        assert(!spec_all_leaders(*entry, gsids));
                    }
                    return Err(e);
                },
            }
            Ok(result)
        } else if entry.is_partition_level(crate::location::ObPartitionLevel::One) {
            match &entry.partition_info {
                Some(info) => {
                    match &info.first_part_desc {
                        Some(d) => {
                            let ids = d.get_part_ids(
                                start,
                                start_inclusive,
                                end,
                                end_inclusive,
                            )?;
                            let ghost gids = d.spec_get_part_ids(
                                start@,
                                start_inclusive,
                                end@,
                                end_inclusive,
                            )->Some_0;
                            let mut k: usize = 0;
                            while k < ids.len()
                                invariant
                                    k <= ids@.len(),
                                    ids@ == gids,
                                    gsids == gids,
                                    gsids == spec_scan_ids(
                                        *entry,
                                        start@,
                                        start_inclusive,
                                        end@,
                                        end_inclusive,
                                    ),
                                    spec_scan_defined(
                                        *entry,
                                        start@,
                                        start_inclusive,
                                        end@,
                                        end_inclusive,
                                    ),
                                    entry.spec_routable(),
                                    entry.spec_is_partition_table(),
                                    entry.spec_level() is One,
                                    result@.len() == k,
                                    forall|j: int|
                                        0 <= j < k ==> (#[trigger] result@[j]).0 == gids[j] && (
                                        spec_leader_of(*entry, gids[j]) matches Some(l)
                                            && crate::location::spec_replica_eq(result@[j].1, l)),
                                decreases ids@.len() - k,
                            {
                                let ghost pre_result = result@;
                                match self.fill_partition_location_with_part_id(
                                    &mut result,
                                    entry,
                                    ids[k],
                                ) {
                                    Ok(()) => {},
                                    Err(e) => {
                                        proof {
                                            assert(gsids == gids);
                                            assert(spec_leader_of(*entry, gsids[k as int])
                                                is None);
                                            assert(!spec_all_leaders(*entry, gsids));
                                        }
                                        return Err(e);
                                    },
                                }
                                proof {
                                    assert(result@.len() == k + 1);
                                    assert forall|j: int|
                                        0 <= j < k + 1 implies ((#[trigger] result@[j]).0
                                        == gids[j] && (spec_leader_of(*entry, gids[j])
                                        matches Some(l) && crate::location::spec_replica_eq(
                                        result@[j].1,
                                        l,
                                    ))) by {
                                        if j < k {
                                            assert(result@.subrange(
                                                0,
                                                pre_result.len() as int,
                                            )[j] == result@[j]);
                                            assert(result@[j] == pre_result[j]);
                                            assert((pre_result[j]).0 == gids[j] && (
                                            spec_leader_of(*entry, gids[j]) matches Some(l)
                                                && crate::location::spec_replica_eq(
                                                pre_result[j].1,
                                                l,
                                            )));
                                        } else {
                                            assert(result@[j] == result@.last());
                                        }
                                    }
                                }
                                k = k + 1;
                            }
                            proof {
                                assert(gsids == gids);
                                assert forall|j: int|
                                    0 <= j < gsids.len() implies spec_leader_of(
                                    *entry,
                                    #[trigger] gsids[j],
                                ) is Some by {
                                    assert((result@[j]).0 == gids[j]);
                                }
                            }
                            Ok(result)
                        },
                        None => Err(common_err(
                            CommonErrCode::NotFound,
                            "the first-level partition descriptor is missing",
                        )),
                    }
                },
                None => Err(common_err(
                    CommonErrCode::NotFound,
                    "partition information is missing from the table entry",
                )),
            }
        } else {
            Err(common_err(
                CommonErrCode::PartitionError,
                "Unsupported partition level two right now",
            ))
        }
    }

    /// Routes a scan range: resolves the partitions it must visit against
    /// the cached entry of the table and pairs each partition id with the
    /// registered handle of its leader's backend.
    ///
    /// A partition whose leader has no registered handle reports
    /// `NotFound`: the roster has drifted, and the caller refreshes the
    /// cluster metadata and retries once before giving up.
    pub fn get_tables(
        &self,
        table_name: &String,
        start: &[Value],
        start_inclusive: bool,
        end: &[Value],
        end_inclusive: bool,
        refresh: bool,
        now_ms: u64,
    ) -> (r: Result<Vec<(i64, BackendHandle)>, Error>)
        requires
            self.wf(),
        ensures
            match r {
                Ok(v) => ({
                    let e = spec_table_at(self.tables@, table_name@).entry->Some_0;
                    &&& self.spec_cache_usable(table_name@, refresh, now_ms)
                    &&& if !e.spec_is_partition_table() || e.spec_level() is Zero {
                        v@.len() == 1 && v@[0].0 == 0 && (spec_leader_of(e, 0) matches Some(l)
                            && v@[0].1.addr.ip@ == l.addr.ip@ && v@[0].1.addr.svr_port
                            == l.addr.svr_port)
                    } else {
                        (e.spec_level() is One) && match e.partition_info {
                            Option::Some(info) => match info.first_part_desc {
                                Option::Some(d) => match d.spec_get_part_ids(
                                    start@,
                                    start_inclusive,
                                    end@,
                                    end_inclusive,
                                ) {
                                    Option::Some(pids) => v@.len() == pids.len() && (forall|
                                        k: int,
                                    |
                                        0 <= k < pids.len() ==> (#[trigger] v@[k]).0 == pids[k]
                                            && (spec_leader_of(e, pids[k]) matches Some(l)
                                            && v@[k].1.addr.ip@ == l.addr.ip@
                                            && v@[k].1.addr.svr_port == l.addr.svr_port)),
                                    Option::None => false,
                                },
                                Option::None => false,
                            },
                            Option::None => false,
                        }
                    }
                }),
                Err(e) => ({
                    let en = spec_table_at(self.tables@, table_name@).entry->Some_0;
                    let usable = self.spec_cache_usable(table_name@, refresh, now_ms);
                    &&& (e.spec_code() is NotFound || e.spec_code() is PartitionError)
                    &&& (e.spec_code() is PartitionError <==> usable
                        && spec_scan_partition_error(
                        en,
                        start@,
                        start_inclusive,
                        end@,
                        end_inclusive,
                    ))
                    &&& (e.spec_code() is NotFound <==> (!usable || spec_scan_not_found(
                        en,
                        start@,
                        start_inclusive,
                        end@,
                        end_inclusive,
                    ) || (spec_scan_defined(en, start@, start_inclusive, end@, end_inclusive)
                        && spec_all_leaders(
                        en,
                        spec_scan_ids(en, start@, start_inclusive, end@, end_inclusive),
                    ) && !spec_all_handles(
                        self.table_roster@,
                        en,
                        spec_scan_ids(en, start@, start_inclusive, end@, end_inclusive),
                    ))))
                }),
            },
            r is Ok <==> ({
                let en = spec_table_at(self.tables@, table_name@).entry->Some_0;
                &&& self.spec_cache_usable(table_name@, refresh, now_ms)
                &&& spec_scan_defined(en, start@, start_inclusive, end@, end_inclusive)
                &&& spec_all_leaders(
                    en,
                    spec_scan_ids(en, start@, start_inclusive, end@, end_inclusive),
                )
                &&& spec_all_handles(
                    self.table_roster@,
                    en,
                    spec_scan_ids(en, start@, start_inclusive, end@, end_inclusive),
                )
            }),
            ({
                let e = spec_table_at(self.tables@, table_name@).entry->Some_0;
                self.spec_cache_usable(table_name@, refresh, now_ms)
                    && e.spec_is_partition_table() && !(e.spec_level() is Zero) && !(
                e.spec_level() is One) ==> (r matches Err(err) && err matches Error::Common(c, m)
                    && c is PartitionError && m@ == "Unsupported partition level two right now"@)
            }),
    {
        proof {
            lemma_table_idx_valid(self.tables@, table_name@);
        }
        let i = match self.find_table(table_name) {
            Some(i) => i,
            None => {
                return Err(common_err(
                    CommonErrCode::NotFound,
                    "no metadata entry is cached for this table; refresh it first",
                ));
            },
        };
        let e = match &self.tables[i].entry {
            Some(e) => e,
            None => {
                return Err(common_err(
                    CommonErrCode::NotFound,
                    "no metadata entry is cached for this table; refresh it first",
                ));
            },
        };
        if refresh && self.need_refresh_table_entry(e, now_ms) {
            return Err(common_err(
                CommonErrCode::NotFound,
                "the cached metadata entry of this table is stale; refresh it first",
            ));
        }
        let ghost ge = spec_table_at(self.tables@, table_name@).entry->Some_0;
        let ghost gusable = self.spec_cache_usable(table_name@, refresh, now_ms);
        let leaders = self.get_partition_leaders(e, start, start_inclusive, end, end_inclusive)?;
        let ghost gpids: Seq<i64> = if !ge.spec_is_partition_table() || ge.spec_level()
            is Zero {
            seq![0i64]
        } else {
            ge.partition_info->Some_0.first_part_desc->Some_0.spec_get_part_ids(
                start@,
                start_inclusive,
                end@,
                end_inclusive,
            )->Some_0
        };
        let mut out: Vec<(i64, BackendHandle)> = Vec::new();
        let mut k: usize = 0;
        proof {
            assert(gpids == spec_scan_ids(ge, start@, start_inclusive, end@, end_inclusive));
        }
        while k < leaders.len()
            invariant
                k <= leaders@.len(),
                out@.len() == k,
                self.wf(),
                ge == spec_table_at(self.tables@, table_name@).entry->Some_0,
                gusable,
                gusable == self.spec_cache_usable(table_name@, refresh, now_ms),
                leaders@.len() == gpids.len(),
                gpids == spec_scan_ids(ge, start@, start_inclusive, end@, end_inclusive),
                spec_scan_defined(ge, start@, start_inclusive, end@, end_inclusive),
                spec_all_leaders(ge, gpids),
                !(ge.spec_is_partition_table() && !(ge.spec_level() is Zero) && !(
                ge.spec_level() is One)),
                !ge.spec_is_partition_table() || ge.spec_level() is Zero ==> gpids
                    =~= seq![0i64],
                ge.spec_is_partition_table() && ge.spec_level() is One ==> (
                ge.partition_info matches Some(ginfo) && (ginfo.first_part_desc matches Some(gd)
                    && gd.spec_get_part_ids(
                    start@,
                    start_inclusive,
                    end@,
                    end_inclusive,
                ) == Some(gpids))),
                forall|j: int|
                    0 <= j < leaders@.len() ==> (#[trigger] leaders@[j]).0 == gpids[j] && (
                    spec_leader_of(ge, gpids[j]) matches Some(l)
                        && crate::location::spec_replica_eq(leaders@[j].1, l)),
                forall|j: int|
                    0 <= j < k ==> (#[trigger] out@[j]).0 == leaders@[j].0 && out@[j].1.addr.ip@
                        == leaders@[j].1.addr.ip@ && out@[j].1.addr.svr_port
                        == leaders@[j].1.addr.svr_port,
                forall|j: int|
                    0 <= j < k ==> spec_has_handle(
                        self.table_roster@,
                        (#[trigger] leaders@[j]).1.addr.ip@,
                        leaders@[j].1.addr.svr_port,
                    ),
            decreases leaders@.len() - k,
        {
            match self.find_handle(&leaders[k].1.addr) {
                Some(hi) => {
                    proof {
                        lemma_handle_idx_valid(
                            self.table_roster@,
                            leaders@[k as int].1.addr.ip@,
                            leaders@[k as int].1.addr.svr_port,
                        );
                    }
                    let h = self.table_roster[hi].clone();
                    let pid = leaders[k].0;
                    out.push((pid, h));
                },
                None => {
                    proof {
                        assert(!spec_all_handles(self.table_roster@, ge, gpids)) by {
                            if spec_all_handles(self.table_roster@, ge, gpids) {
                                assert(spec_has_handle(
                                    self.table_roster@,
                                    spec_leader_of(ge, gpids[k as int])->Some_0.addr.ip@,
                                    spec_leader_of(ge, gpids[k as int])->Some_0.addr.svr_port,
                                ));
                            }
                        }
                    }
                    return Err(common_err(
                        CommonErrCode::NotFound,
                        "no backend handle is registered for the partition leader; refresh the cluster metadata",
                    ));
                },
            }
            k = k + 1;
        }
        proof {
            assert forall|j: int|
                0 <= j < gpids.len() implies ((#[trigger] out@[j]).0 == gpids[j] && (
            spec_leader_of(ge, gpids[j]) matches Some(l) && out@[j].1.addr.ip@ == l.addr.ip@
                && out@[j].1.addr.svr_port == l.addr.svr_port)) by {
                assert((leaders@[j]).0 == gpids[j]);
            }
            if !ge.spec_is_partition_table() || ge.spec_level() is Zero {
                assert(out@[0].0 == gpids[0] && gpids[0] == 0);
            }
            assert forall|j: int|
                0 <= j < gpids.len() implies spec_leader_of(ge, #[trigger] gpids[j]) is Some
                && spec_has_handle(
                self.table_roster@,
                spec_leader_of(ge, gpids[j])->Some_0.addr.ip@,
                spec_leader_of(ge, gpids[j])->Some_0.addr.svr_port,
            ) by {
                assert((leaders@[j]).0 == gpids[j]);
                assert(spec_has_handle(
                    self.table_roster@,
                    leaders@[j].1.addr.ip@,
                    leaders@[j].1.addr.svr_port,
                ));
            }
        }
        Ok(out)
    }
}

/// The record `r` with its registered row-key element replaced.
pub open spec fn spec_with_row_key_element(
    r: TableRecord,
    rke: Option<Vec<String>>,
) -> TableRecord {
    TableRecord {
        name: r.name,
        entry: r.entry,
        row_key_element: rke,
        lock_held: r.lock_held,
        continuous_failures: r.continuous_failures,
    }
}

/// What registering a row-key element does to the table records: nothing
/// when the table already has one (the first registration wins), the
/// registration of `rec.row_key_element` otherwise, creating the record
/// when the table is new.
pub open spec fn spec_add_row_key_element(
    ts: Seq<TableRecord>,
    rec: TableRecord,
) -> Seq<TableRecord> {
    match spec_table_idx(ts, rec.name@) {
        Option::Some(i) => if ts[i].row_key_element is Some {
            ts
        } else {
            ts.update(i, spec_with_row_key_element(ts[i], rec.row_key_element))
        },
        Option::None => ts.push(rec),
    }
}

/// Law: registering a row-key element is idempotent. Once a table has a
/// registered row-key element, registering another (even a different
/// column list) leaves the records exactly as they were: the first
/// registration wins.
pub proof fn lemma_add_row_key_element_idempotent(
    ts: Seq<TableRecord>,
    r1: TableRecord,
    r2: TableRecord,
)
    requires
        r1.name@ == r2.name@,
        r1.row_key_element is Some,
    ensures
        spec_add_row_key_element(spec_add_row_key_element(ts, r1), r2) == spec_add_row_key_element(
            ts,
            r1,
        ),
{
    let name = r1.name@;
    let ts1 = spec_add_row_key_element(ts, r1);
    lemma_table_idx_valid(ts, name);
    match spec_table_idx(ts, name) {
        Option::Some(i) => {
            if ts[i].row_key_element is Some {
            } else {
                lemma_table_idx_same_names(ts, ts1, name);
                lemma_table_idx_valid(ts1, name);
            }
        },
        Option::None => {
            lemma_no_idx_means_absent(ts, name);
            assert(ts1.subrange(0, ts.len() as int) =~= ts);
            lemma_table_idx_found(ts1, name, ts.len() as int);
        },
    }
}

impl ObTableClient {
    /// Registers the ordered row-key column names of a table, used to
    /// resolve partition-descriptor ordinals when the table's entry is
    /// refreshed in `Normal` mode. The first registration wins: a second
    /// call for the same table, with any column list, changes nothing.
    pub fn add_row_key_element(&mut self, table_name: &String, columns: Vec<String>)
        requires
            old(self).wf(),
        ensures
            final(self).wf(),
            Self::spec_only_tables_changed(*old(self), *final(self)),
            exists|rec: TableRecord|
                {
                    &&& rec.name@ == table_name@
                    &&& rec.row_key_element == Some(columns)
                    &&& rec.entry is None
                    &&& !rec.lock_held
                    &&& rec.continuous_failures == 0
                    &&& final(self).tables@ == #[trigger] spec_add_row_key_element(
                        old(self).tables@,
                        rec,
                    )
                },
            spec_has_table(final(self).tables@, table_name@),
            spec_table_at(final(self).tables@, table_name@).row_key_element is Some,
    {
        proof {
            lemma_table_idx_valid(self.tables@, table_name@);
        }
        match self.find_table(table_name) {
            Some(i) => {
                if self.tables[i].row_key_element.is_some() {
                    proof {
                        let rec = TableRecord {
                            name: self.tables@[i as int].name,
                            entry: None,
                            row_key_element: Some(columns),
                            lock_held: false,
                            continuous_failures: 0,
                        };
                        assert(spec_add_row_key_element(self.tables@, rec) == self.tables@);
                    }
                    return;
                }
                let mut rec = self.tables.remove(i);
                rec.row_key_element = Some(columns);
                let ghost grec = rec;
                self.tables.insert(i, rec);
                proof {
                    assert(self.tables@ =~= old(self).tables@.update(i as int, grec));
                    lemma_table_idx_of_update(old(self).tables@, self.tables@, i as int);
                    let witness = TableRecord {
                        name: grec.name,
                        entry: None,
                        row_key_element: grec.row_key_element,
                        lock_held: false,
                        continuous_failures: 0,
                    };
                    assert(spec_add_row_key_element(old(self).tables@, witness) == self.tables@);
                }
            },
            None => {
                let rec = TableRecord {
                    name: table_name.clone(),
                    entry: None,
                    row_key_element: Some(columns),
                    lock_held: false,
                    continuous_failures: 0,
                };
                let ghost grec = rec;
                self.tables.push(rec);
                proof {
                    assert(self.tables@.subrange(0, old(self).tables@.len() as int) =~= old(
                        self,
                    ).tables@);
                    lemma_names_of_push(old(self).tables@, self.tables@, table_name@);
                    lemma_table_idx_found(self.tables@, table_name@, old(
                        self,
                    ).tables@.len() as int);
                    assert(spec_add_row_key_element(old(self).tables@, grec) == self.tables@);
                }
            },
        }
    }

    /// Forgets everything the client keeps about a table: its cached
    /// entry, its registered row-key element, its failure counter and its
    /// refresh lock.
    pub fn invalidate_table(&mut self, table_name: &String)
        requires
            old(self).wf(),
        ensures
            final(self).wf(),
            Self::spec_only_tables_changed(*old(self), *final(self)),
            match spec_table_idx(old(self).tables@, table_name@) {
                Option::Some(i) => final(self).tables@ == old(self).tables@.remove(i),
                Option::None => final(self).tables == old(self).tables,
            },
            !spec_has_table(final(self).tables@, table_name@),
    {
        proof {
            lemma_table_idx_valid(self.tables@, table_name@);
        }
        match self.find_table(table_name) {
            Some(i) => {
                self.tables.remove(i);
                proof {
                    assert forall|a: int, b: int|
                        0 <= a < b < self.tables@.len() implies self.tables@[a].name@
                        != self.tables@[b].name@ by {
                        let a0 = if a < i { a } else { a + 1 };
                        let b0 = if b < i { b } else { b + 1 };
                        assert(self.tables@[a] == old(self).tables@[a0]);
                        assert(self.tables@[b] == old(self).tables@[b0]);
                    }
                    assert forall|j: int|
                        0 <= j < self.tables@.len() implies (#[trigger] self.tables@[j].entry
                        matches Some(e) ==> e.spec_routable()) by {
                        let j0 = if j < i { j } else { j + 1 };
                        assert(self.tables@[j] == old(self).tables@[j0]);
                    }
                    if spec_has_table(self.tables@, table_name@) {
                        lemma_table_idx_valid(self.tables@, table_name@);
                        let w = spec_table_idx(self.tables@, table_name@)->Some_0;
                        let w0 = if w < i {
                            w
                        } else {
                            w + 1
                        };
                        assert(self.tables@[w] == old(self).tables@[w0]);
                        lemma_table_idx_valid(old(self).tables@, table_name@);
                    }
                }
            },
            None => {},
        }
    }

    /// Whether a failed operation should be attempted again: the error is
    /// retryable and the retry budget is not exhausted.
    pub fn should_retry(&self, error: &Error, retry_num: u64) -> (r: bool)
        ensures
            r == (retry_num < self.config.rpc_retry_limit && error.spec_need_retry()),
    {
        retry_num < self.config.rpc_retry_limit && error.need_retry()
    }

    /// Digests the backend's result code for one operation on a table: on
    /// success the table's continuous-failure counter returns to zero; any
    /// other code becomes the operation's error.
    pub fn on_execute_result(&mut self, table_name: &String, result_code: ResultCodes) -> (r:
        Result<(), Error>)
        requires
            old(self).wf(),
        ensures
            final(self).wf(),
            Self::spec_only_tables_changed(*old(self), *final(self)),
            match r {
                Ok(()) => {
                    &&& result_code is OB_SUCCESS
                    &&& spec_has_table(final(self).tables@, table_name@) ==> spec_table_at(
                        final(self).tables@,
                        table_name@,
                    ).continuous_failures == 0
                },
                Err(e) => {
                    &&& !(result_code is OB_SUCCESS)
                    &&& e.spec_code() == CommonErrCode::ObException(result_code)
                    &&& final(self).tables == old(self).tables
                },
            },
    {
        if matches!(result_code, ResultCodes::OB_SUCCESS) {
            self.reset_table_failure(table_name);
            proof {
                lemma_table_idx_valid(old(self).tables@, table_name@);
            }
            Ok(())
        } else {
            Err(common_err(
                CommonErrCode::ObException(result_code),
                "the backend returned an exception for the operation",
            ))
        }
    }

    /// The backend a SQL passthrough statement should run on: a random
    /// roster member; `NotFound` when no backend is active.
    pub fn execute_sql_target(&self) -> (r: Result<ObServerAddr, Error>)
        ensures
            match r {
                Ok(a) => self.server_roster.members@.len() > 0 && exists|i: int|
                    0 <= i < self.server_roster.members@.len()
                        && crate::roster::spec_addr_eq(a, self.server_roster.members@[i]),
                Err(e) => self.server_roster.members@.len() == 0 && e.spec_code() is NotFound,
            },
    {
        match self.server_roster.peek_random_server() {
            Some(a) => Ok(a),
            None => Err(common_err(CommonErrCode::NotFound, "active server not found")),
        }
    }
}

/// The record at `i` bearing `name`, with no earlier record bearing it,
/// is the one the search finds.
proof fn lemma_table_idx_found(ts: Seq<TableRecord>, name: Seq<char>, i: int)
    requires
        0 <= i < ts.len(),
        ts[i].name@ == name,
        forall|j: int| 0 <= j < i ==> ts[j].name@ != name,
    ensures
        spec_table_idx(ts, name) == Some(i),
        spec_has_table(ts, name),
    decreases ts.len(),
{
    if ts[0].name@ == name {
    } else {
        assert(ts.skip(1)[i - 1] == ts[i]);
        assert forall|j: int| 0 <= j < i - 1 implies ts.skip(1)[j].name@ != name by {
            assert(ts.skip(1)[j] == ts[j + 1]);
        }
        lemma_table_idx_found(ts.skip(1), name, i - 1);
    }
}

/// Updating a record without renaming it leaves every name, and so every
/// search, in place.
proof fn lemma_table_idx_of_update(pre: Seq<TableRecord>, post: Seq<TableRecord>, i: int)
    requires
        0 <= i < pre.len(),
        post.len() == pre.len(),
        forall|j: int| 0 <= j < pre.len() && j != i ==> post[j] == pre[j],
        post[i].name == pre[i].name,
    ensures
        forall|name: Seq<char>| spec_table_idx(post, name) == spec_table_idx(pre, name),
{
    assert forall|name: Seq<char>| spec_table_idx(post, name) == spec_table_idx(pre, name) by {
        lemma_table_idx_same_names(pre, post, name);
    }
}

/// Sequences with the same names at the same places search identically.
proof fn lemma_table_idx_same_names(pre: Seq<TableRecord>, post: Seq<TableRecord>, name: Seq<char>)
    requires
        pre.len() == post.len(),
        forall|j: int| 0 <= j < pre.len() ==> post[j].name@ == pre[j].name@,
    ensures
        spec_table_idx(post, name) == spec_table_idx(pre, name),
    decreases pre.len(),
{
    if pre.len() > 0 {
        assert(post[0].name@ == pre[0].name@);
        assert forall|j: int| 0 <= j < pre.skip(1).len() implies post.skip(1)[j].name@ == pre.skip(
            1,
        )[j].name@ by {
            assert(pre.skip(1)[j] == pre[j + 1]);
            assert(post.skip(1)[j] == post[j + 1]);
        }
        lemma_table_idx_same_names(pre.skip(1), post.skip(1), name);
    }
}

/// Appending a record with a fresh name keeps all names distinct.
proof fn lemma_names_of_push(pre: Seq<TableRecord>, post: Seq<TableRecord>, name: Seq<char>)
    requires
        spec_table_idx(pre, name) is None,
        post.len() == pre.len() + 1,
        post.subrange(0, pre.len() as int) == pre,
        post.last().name@ == name,
    ensures
        forall|i: int| 0 <= i < pre.len() ==> pre[i].name@ != name,
        forall|i: int| 0 <= i < pre.len() ==> post[i] == pre[i],
{
    assert forall|i: int| 0 <= i < pre.len() implies pre[i].name@ != name by {
        lemma_no_idx_means_absent(pre, name);
    }
    assert forall|i: int| 0 <= i < pre.len() implies post[i] == pre[i] by {
        assert(post.subrange(0, pre.len() as int)[i] == post[i]);
    }
}

/// A failed search means no record bears the name.
proof fn lemma_no_idx_means_absent(ts: Seq<TableRecord>, name: Seq<char>)
    requires
        spec_table_idx(ts, name) is None,
    ensures
        forall|i: int| 0 <= i < ts.len() ==> ts[i].name@ != name,
    decreases ts.len(),
{
    if ts.len() > 0 {
        lemma_no_idx_means_absent(ts.skip(1), name);
        assert forall|i: int| 0 <= i < ts.len() implies ts[i].name@ != name by {
            if i > 0 {
                assert(ts.skip(1)[i - 1] == ts[i]);
            }
        }
    }
}

} // verus!
