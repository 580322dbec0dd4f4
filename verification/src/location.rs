//! Locations of backends and replicas.
//!
//! A backend is addressed by `(ip, svr_port)`. A table's partition metadata
//! lists, for each partition, the locations of its replicas; exactly one
//! replica may hold the `Leader` role at a time and only the leader serves
//! writes.

use vstd::prelude::*;

use crate::strutil::string_eq;

verus! {

/// The role a replica currently holds.
#[derive(Clone, Copy, Debug, PartialEq, Eq, Structural)]
pub enum ObServerRole {
    InvalidRole,
    Leader,
    Follower,
}

impl ObServerRole {
    pub open spec fn spec_from_i32(v: i32) -> ObServerRole {
        match v {
            1 => ObServerRole::Leader,
            2 => ObServerRole::Follower,
            _ => ObServerRole::InvalidRole,
        }
    }

    /// Decodes the wire tag for a replica role.
    pub fn from_i32(v: i32) -> (r: ObServerRole)
        ensures
            r == ObServerRole::spec_from_i32(v),
    {
        match v {
            1 => ObServerRole::Leader,
            2 => ObServerRole::Follower,
            _ => ObServerRole::InvalidRole,
        }
    }
}

/// Whether a backend is in service.
#[derive(Clone, Copy, Debug, PartialEq, Eq, Structural)]
pub enum ObServerStatus {
    Active,
    Inactive,
}

/// The address of one backend node, with its routing priority.
///
/// Two addresses denote the same backend when `ip` and `svr_port` agree;
/// `sql_port` and `priority` are auxiliary.
#[derive(Debug)]
pub struct ObServerAddr {
    pub ip: String,
    pub svr_port: u32,
    pub sql_port: u32,
    pub priority: i64,
}

/// The backend identity of two addresses coincides: same host, same port.
pub open spec fn spec_addr_key_eq(a: ObServerAddr, b: ObServerAddr) -> bool {
    a.ip@ == b.ip@ && a.svr_port == b.svr_port
}

impl ObServerAddr {
    /// Tests whether `self` and `other` address the same backend.
    pub fn key_eq(&self, other: &ObServerAddr) -> (r: bool)
        ensures
            r == spec_addr_key_eq(*self, *other),
    {
        self.svr_port == other.svr_port && string_eq(&self.ip, &other.ip)
    }

    pub fn priority(&self) -> (p: i64)
        ensures
            p == self.priority,
    {
        self.priority
    }
}

impl Clone for ObServerAddr {
    /// A clone addresses the same backend with the same ports and priority.
    fn clone(&self) -> (res: Self)
        ensures
            res.ip@ == self.ip@,
            res.svr_port == self.svr_port,
            res.sql_port == self.sql_port,
            res.priority == self.priority,
    {
        ObServerAddr {
            ip: self.ip.clone(),
            svr_port: self.svr_port,
            sql_port: self.sql_port,
            priority: self.priority,
        }
    }
}

/// The location of one replica of a partition (or of a whole table).
#[derive(Debug)]
pub struct ReplicaLocation {
    pub addr: ObServerAddr,
    pub role: ObServerRole,
    pub status: ObServerStatus,
    /// Wall-clock instant at which the backend was stopped; 0 while it runs.
    pub stop_time: u64,
}

impl ReplicaLocation {
    /// A replica serves traffic when its backend is operational and has not
    /// been stopped.
    pub open spec fn spec_is_active(self) -> bool {
        self.status is Active && self.stop_time == 0
    }

    pub fn is_active(&self) -> (r: bool)
        ensures
            r == self.spec_is_active(),
    {
        matches!(self.status, ObServerStatus::Active) && self.stop_time == 0
    }

    pub open spec fn spec_is_leader(self) -> bool {
        self.role is Leader
    }

    pub fn is_leader(&self) -> (r: bool)
        ensures
            r == self.spec_is_leader(),
    {
        matches!(self.role, ObServerRole::Leader)
    }

    pub fn addr(&self) -> (a: &ObServerAddr)
        ensures
            *a == self.addr,
    {
        &self.addr
    }
}

impl Clone for ReplicaLocation {
    /// A clone locates the same backend in the same role and state.
    fn clone(&self) -> (res: Self)
        ensures
            res.addr.ip@ == self.addr.ip@,
            res.addr.svr_port == self.addr.svr_port,
            res.addr.sql_port == self.addr.sql_port,
            res.addr.priority == self.addr.priority,
            res.role == self.role,
            res.status == self.status,
            res.stop_time == self.stop_time,
    {
        ReplicaLocation {
            addr: self.addr.clone(),
            role: self.role,
            status: self.status,
            stop_time: self.stop_time,
        }
    }
}

/// All fields of two replica locations agree.
pub open spec fn spec_replica_eq(a: ReplicaLocation, b: ReplicaLocation) -> bool {
    &&& a.addr.ip@ == b.addr.ip@
    &&& a.addr.svr_port == b.addr.svr_port
    &&& a.addr.sql_port == b.addr.sql_port
    &&& a.addr.priority == b.addr.priority
    &&& a.role == b.role
    &&& a.status == b.status
    &&& a.stop_time == b.stop_time
}

/// The first replica of a sequence that holds the leader role, if any.
pub open spec fn spec_first_leader(rs: Seq<ReplicaLocation>) -> Option<ReplicaLocation>
    decreases rs.len(),
{
    if rs.len() == 0 {
        None
    } else if rs[0].spec_is_leader() {
        Some(rs[0])
    } else {
        spec_first_leader(rs.skip(1))
    }
}

/// Stepping past a non-leader replica leaves the first leader unchanged.
proof fn lemma_first_leader_step(rs: Seq<ReplicaLocation>, i: int)
    requires
        0 <= i < rs.len(),
        !rs[i].spec_is_leader(),
    ensures
        spec_first_leader(rs.skip(i)) == spec_first_leader(rs.skip(i + 1)),
{
    let s = rs.skip(i);
    assert(s[0] == rs[i]);
    assert(s.skip(1) =~= rs.skip(i + 1));
}

/// The replica set of one partition.
#[derive(Debug)]
pub struct PartitionLocation {
    pub replicas: Vec<ReplicaLocation>,
}

impl PartitionLocation {
    /// The current leader replica of the partition, or nothing when no
    /// replica holds the leader role.
    pub fn leader(&self) -> (r: Option<&ReplicaLocation>)
        ensures
            match r {
                Some(l) => spec_first_leader(self.replicas@) == Some(*l),
                None => spec_first_leader(self.replicas@) is None,
            },
    {
        let rs = &self.replicas;
        let mut i: usize = 0;
        proof {
            assert(rs@.skip(0) =~= rs@);
        }
        loop
            invariant
                i <= rs@.len(),
                rs@ == self.replicas@,
                spec_first_leader(rs@) == spec_first_leader(rs@.skip(i as int)),
            decreases rs@.len() - i,
        {
            if i == rs.len() {
                proof {
                    assert(rs@.skip(i as int).len() == 0);
                }
                return None;
            }
            assert(rs@.skip(i as int)[0] == rs@[i as int]);
            if rs[i].is_leader() {
                return Some(&rs[i]);
            }
            proof {
                lemma_first_leader_step(rs@, i as int);
            }
            i = i + 1;
        }
    }
}

/// How many levels of partitioning a table uses.
#[derive(Clone, Copy, Debug, PartialEq, Eq, Structural)]
pub enum ObPartitionLevel {
    Unknown,
    Zero,
    One,
    Two,
}

impl ObPartitionLevel {
    pub open spec fn spec_from_i32(v: i32) -> ObPartitionLevel {
        match v {
            0 => ObPartitionLevel::Zero,
            1 => ObPartitionLevel::One,
            2 => ObPartitionLevel::Two,
            _ => ObPartitionLevel::Unknown,
        }
    }

    /// Decodes the wire tag for a partition level.
    pub fn from_i32(v: i32) -> (r: ObPartitionLevel)
        ensures
            r == ObPartitionLevel::spec_from_i32(v),
    {
        match v {
            0 => ObPartitionLevel::Zero,
            1 => ObPartitionLevel::One,
            2 => ObPartitionLevel::Two,
            _ => ObPartitionLevel::Unknown,
        }
    }
}

/// The catalog key of one table: which cluster, tenant and database the
/// table lives in.
#[derive(Debug)]
pub struct TableEntryKey {
    pub cluster_name: String,
    pub tenant_name: String,
    pub database_name: String,
    pub table_name: String,
}

impl TableEntryKey {
    pub fn new(
        cluster_name: &String,
        tenant_name: &String,
        database_name: &String,
        table_name: &String,
    ) -> (k: TableEntryKey)
        ensures
            k.cluster_name@ == cluster_name@,
            k.tenant_name@ == tenant_name@,
            k.database_name@ == database_name@,
            k.table_name@ == table_name@,
    {
        TableEntryKey {
            cluster_name: cluster_name.clone(),
            tenant_name: tenant_name.clone(),
            database_name: database_name.clone(),
            table_name: table_name.clone(),
        }
    }
}

} // verus!
