//! Batch operations: bucketing by partition and the per-partition
//! dispatch plan.
//!
//! A batch is a list of row operations. The client buckets the
//! operations of one batch by the partition id of each operation's row
//! key, preserving the operations' order inside every bucket; buckets
//! appear in the order their partition is first used. An atomic batch
//! must address a single partition. The runtime dispatches one sub-batch
//! per bucket (in parallel when there are several) and flattens the
//! per-bucket results back into one list.

use vstd::prelude::*;

use crate::client::{spec_has_table, spec_partition_id, spec_table_at, BackendHandle, ObTableClient};
use crate::error::{common_err, CommonErrCode, Error, ResultCodes};
use crate::table_entry::TableEntry;
use crate::value::Value;

verus! {

/// The kind of one row operation.
#[derive(Clone, Copy, Debug, PartialEq, Eq, Structural)]
pub enum ObTableOperationType {
    Get,
    Insert,
    Del,
    Update,
    InsertOrUpdate,
    Replace,
    Increment,
    Append,
}

/// One row operation of a batch.
#[derive(Clone, Debug)]
pub struct BatchOp {
    pub op_type: ObTableOperationType,
    pub row_keys: Vec<Value>,
    pub columns: Vec<String>,
    pub properties: Vec<Value>,
}

/// A batch of row operations, optionally atomic.
#[derive(Clone, Debug)]
pub struct ObTableBatchOperation {
    pub ops: Vec<BatchOp>,
    pub atomic: bool,
}

impl ObTableBatchOperation {
    /// An empty, non-atomic batch. The hint sizes the underlying buffer.
    pub fn with_ops_num_raw(ops_num_hint: usize) -> (b: ObTableBatchOperation)
        ensures
            b.ops@.len() == 0,
            !b.atomic,
    {
        let _ = ops_num_hint;
        ObTableBatchOperation { ops: Vec::new(), atomic: false }
    }

    /// Appends one operation.
    pub fn add_op(&mut self, op: BatchOp)
        ensures
            final(self).ops@ == old(self).ops@.push(op),
            final(self).atomic == old(self).atomic,
    {
        self.ops.push(op);
    }

    /// Appends an insert of one row.
    pub fn insert(&mut self, row_keys: Vec<Value>, columns: Vec<String>, properties: Vec<Value>)
        ensures
            final(self).ops@.len() == old(self).ops@.len() + 1,
            final(self).ops@.subrange(0, old(self).ops@.len() as int) == old(self).ops@,
            final(self).ops@.last().op_type is Insert,
            final(self).ops@.last().row_keys == row_keys,
            final(self).ops@.last().columns == columns,
            final(self).ops@.last().properties == properties,
            final(self).atomic == old(self).atomic,
    {
        self.ops.push(
            BatchOp { op_type: ObTableOperationType::Insert, row_keys, columns, properties },
        );
        proof {
            assert(final(self).ops@.subrange(0, old(self).ops@.len() as int) =~= old(self).ops@);
        }
    }

    /// Appends a point get of one row.
    pub fn get(&mut self, row_keys: Vec<Value>, columns: Vec<String>)
        ensures
            final(self).ops@.len() == old(self).ops@.len() + 1,
            final(self).ops@.subrange(0, old(self).ops@.len() as int) == old(self).ops@,
            final(self).ops@.last().op_type is Get,
            final(self).ops@.last().row_keys == row_keys,
            final(self).ops@.last().columns == columns,
            final(self).atomic == old(self).atomic,
    {
        self.ops.push(
            BatchOp {
                op_type: ObTableOperationType::Get,
                row_keys,
                columns,
                properties: Vec::new(),
            },
        );
        proof {
            assert(final(self).ops@.subrange(0, old(self).ops@.len() as int) =~= old(self).ops@);
        }
    }

    /// Appends a delete of one row.
    pub fn delete(&mut self, row_keys: Vec<Value>)
        ensures
            final(self).ops@.len() == old(self).ops@.len() + 1,
            final(self).ops@.subrange(0, old(self).ops@.len() as int) == old(self).ops@,
            final(self).ops@.last().op_type is Del,
            final(self).ops@.last().row_keys == row_keys,
            final(self).atomic == old(self).atomic,
    {
        self.ops.push(
            BatchOp {
                op_type: ObTableOperationType::Del,
                row_keys,
                columns: Vec::new(),
                properties: Vec::new(),
            },
        );
        proof {
            assert(final(self).ops@.subrange(0, old(self).ops@.len() as int) =~= old(self).ops@);
        }
    }

    /// Marks the batch atomic or not.
    pub fn set_atomic_op(&mut self, atomic: bool)
        ensures
            final(self).ops == old(self).ops,
            final(self).atomic == atomic,
    {
        self.atomic = atomic;
    }

    /// Whether the batch is atomic.
    pub fn is_atomic_op(&self) -> (r: bool)
        ensures
            r == self.atomic,
    {
        self.atomic
    }
}

/// One bucket of the dispatch plan: the operations of the batch that
/// route to partition `part_id`, in their original relative order, a
/// handle to that partition's leader backend, and whether the sub-batch
/// must execute atomically on the backend (it carries the batch's atomic
/// flag; an atomic plan has a single bucket).
#[derive(Debug)]
pub struct PartBatch {
    pub part_id: i64,
    pub handle: BackendHandle,
    pub ops: Vec<BatchOp>,
    pub atomic: bool,
}

/// The result of one row operation.
#[derive(Clone, Debug)]
pub enum TableOpResult {
    AffectedRows(i64),
    Entity(Vec<(String, Value)>),
}

/// The bucket keyed by `id`, by first match.
pub open spec fn spec_bucket_idx(bs: Seq<(i64, Seq<BatchOp>)>, id: i64) -> Option<int>
    decreases bs.len(),
{
    if bs.len() == 0 {
        None
    } else if bs[0].0 == id {
        Some(0int)
    } else {
        match spec_bucket_idx(bs.skip(1), id) {
            Option::None => None,
            Option::Some(i) => Some(1 + i),
        }
    }
}

/// A found bucket index lies in range and keys the requested partition.
proof fn lemma_bucket_idx_valid(bs: Seq<(i64, Seq<BatchOp>)>, id: i64)
    ensures
        spec_bucket_idx(bs, id) matches Some(i) ==> 0 <= i < bs.len() && bs[i].0 == id,
    decreases bs.len(),
{
    if bs.len() > 0 {
        lemma_bucket_idx_valid(bs.skip(1), id);
    }
}

/// Adds one operation to the bucket of its partition, opening a new
/// bucket at the end when the partition is new.
pub open spec fn spec_add_to_buckets(
    bs: Seq<(i64, Seq<BatchOp>)>,
    id: i64,
    op: BatchOp,
) -> Seq<(i64, Seq<BatchOp>)> {
    match spec_bucket_idx(bs, id) {
        Option::Some(i) => bs.update(i, (id, bs[i].1.push(op))),
        Option::None => bs.push((id, seq![op])),
    }
}

/// The buckets of a batch under an entry: each operation, in order, goes
/// to the bucket of its partition id. Nothing when some operation's
/// partition cannot be resolved.
pub open spec fn spec_buckets(entry: TableEntry, ops: Seq<BatchOp>) -> Option<
    Seq<(i64, Seq<BatchOp>)>,
>
    decreases ops.len(),
{
    if ops.len() == 0 {
        Some(Seq::empty())
    } else {
        match spec_buckets(entry, ops.drop_last()) {
            Option::None => None,
            Option::Some(bs) => match spec_partition_id(entry, ops.last().row_keys@) {
                Option::None => None,
                Option::Some(id) => Some(spec_add_to_buckets(bs, id, ops.last())),
            },
        }
    }
}

/// The views of the in-progress exec buckets.
pub open spec fn spec_bucket_views(bs: Seq<(i64, Vec<BatchOp>)>) -> Seq<(i64, Seq<BatchOp>)> {
    bs.map_values(|p: (i64, Vec<BatchOp>)| (p.0, p.1@))
}

/// Finds the bucket keyed by `id`.
fn find_bucket(bs: &Vec<(i64, Vec<BatchOp>)>, id: i64) -> (r: Option<usize>)
    ensures
        match r {
            Some(i) => spec_bucket_idx(spec_bucket_views(bs@), id) == Some(i as int) && i
                < bs@.len(),
            None => spec_bucket_idx(spec_bucket_views(bs@), id) is None,
        },
{
    let ghost views = spec_bucket_views(bs@);
    let mut i: usize = 0;
    proof {
        assert(views.skip(0) =~= views);
    }
    loop
        invariant
            i <= bs@.len(),
            views == spec_bucket_views(bs@),
            views.len() == bs@.len(),
            spec_bucket_idx(views, id) == match spec_bucket_idx(views.skip(i as int), id) {
                Option::None => Option::<int>::None,
                Option::Some(k) => Option::Some(i + k),
            },
        decreases bs@.len() - i,
    {
        if i == bs.len() {
            proof {
                assert(views.skip(i as int).len() == 0);
            }
            return None;
        }
        proof {
            assert(views.skip(i as int)[0] == views[i as int]);
            assert(views[i as int].0 == bs@[i as int].0);
        }
        if bs[i].0 == id {
            return Some(i);
        }
        proof {
            let s = views.skip(i as int);
            assert(s.skip(1) =~= views.skip(i as int + 1));
        }
        i = i + 1;
    }
}

/// A batch with an unresolvable operation has no buckets.
proof fn lemma_buckets_none(entry: TableEntry, ops: Seq<BatchOp>, j: int)
    requires
        0 <= j < ops.len(),
        spec_partition_id(entry, ops[j].row_keys@) is None,
    ensures
        spec_buckets(entry, ops) is None,
    decreases ops.len(),
{
    if ops.len() > 0 {
        if j == ops.len() - 1 {
        } else {
            assert(ops.drop_last()[j] == ops[j]);
            lemma_buckets_none(entry, ops.drop_last(), j);
        }
    }
}

impl ObTableClient {
    /// Builds the per-partition dispatch plan of one batch against the
    /// cached entry of the table.
    ///
    /// The operations are bucketed by the partition id of their row keys,
    /// in order; an atomic batch spanning more than one partition fails
    /// with `ObException(OB_INVALID_PARTITION)`; otherwise every bucket
    /// is paired with a handle to its partition leader's backend. The
    /// runtime dispatches the buckets (concurrently when there are
    /// several) and flattens the results.
    pub fn plan_batch(&mut self, table_name: &String, batch: ObTableBatchOperation) -> (r: Result<
        Vec<PartBatch>,
        Error,
    >)
        requires
            old(self).wf(),
        ensures
            final(self).wf(),
            final(self).tables == old(self).tables,
            final(self).config == old(self).config,
            final(self).running_mode == old(self).running_mode,
            final(self).initialized == old(self).initialized,
            final(self).closed == old(self).closed,
            final(self).server_roster == old(self).server_roster,
            final(self).last_refresh_metadata_ts == old(self).last_refresh_metadata_ts,
            match r {
                Ok(plans) => ({
                    let e = spec_table_at(old(self).tables@, table_name@).entry->Some_0;
                    &&& old(self).initialized && !old(self).closed
                    &&& spec_has_table(old(self).tables@, table_name@)
                    &&& spec_table_at(old(self).tables@, table_name@).entry is Some
                    &&& spec_buckets(e, batch.ops@) matches Some(bs) && ({
                        &&& plans@.len() == bs.len()
                        &&& forall|k: int|
                            0 <= k < bs.len() ==> (#[trigger] plans@[k]).part_id == bs[k].0
                                && plans@[k].ops@ == bs[k].1 && plans@[k].atomic == batch.atomic
                                && (crate::client::spec_leader_of(
                                e,
                                bs[k].0,
                            ) matches Some(l) && plans@[k].handle.addr.ip@ == l.addr.ip@
                                && plans@[k].handle.addr.svr_port == l.addr.svr_port)
                    })
                    &&& batch.atomic ==> plans@.len() <= 1
                }),
                Err(err) => ({
                    let e = spec_table_at(old(self).tables@, table_name@).entry->Some_0;
                    match err.spec_code() {
                        CommonErrCode::NotInitialized => !old(self).initialized,
                        CommonErrCode::AlreadyClosed => old(self).initialized && old(self).closed,
                        CommonErrCode::NotFound => !(spec_has_table(
                            old(self).tables@,
                            table_name@,
                        ) && spec_table_at(old(self).tables@, table_name@).entry is Some) || (
                        spec_buckets(e, batch.ops@) matches Some(bs) && exists|k: int|
                            0 <= k < bs.len() && crate::client::spec_leader_of(
                                e,
                                (#[trigger] bs[k]).0,
                            ) is None),
                        CommonErrCode::PartitionError => spec_buckets(e, batch.ops@) is None,
                        CommonErrCode::ObException(c) => c is OB_INVALID_PARTITION && batch.atomic
                            && (spec_buckets(e, batch.ops@) matches Some(bs) && bs.len() > 1),
                        CommonErrCode::Lock => false,
                    }
                }),
            },
            ({
                let e = spec_table_at(old(self).tables@, table_name@).entry->Some_0;
                (old(self).initialized && !old(self).closed && spec_has_table(
                    old(self).tables@,
                    table_name@,
                ) && spec_table_at(old(self).tables@, table_name@).entry is Some && batch.atomic
                    && (spec_buckets(e, batch.ops@) matches Some(bs) && bs.len() > 1)) ==> (
                r matches Err(err) && err.spec_code() == CommonErrCode::ObException(
                    ResultCodes::OB_INVALID_PARTITION,
                ))
            }),
    {
        self.check_status()?;
        proof {
            crate::client::lemma_table_idx_valid(self.tables@, table_name@);
        }
        let ti = match self.find_table(table_name) {
            Some(i) => i,
            None => {
                return Err(common_err(
                    CommonErrCode::NotFound,
                    "no metadata entry is cached for this table; refresh it first",
                ));
            },
        };
        let e = match &self.tables[ti].entry {
            Some(e) => e,
            None => {
                return Err(common_err(
                    CommonErrCode::NotFound,
                    "no metadata entry is cached for this table; refresh it first",
                ));
            },
        };
        let ghost ge = spec_table_at(self.tables@, table_name@).entry->Some_0;
        let ObTableBatchOperation { ops, atomic } = batch;
        let mut remaining = ops;
        let ghost orig = remaining@;
        let orig_len = remaining.len();
        proof {
            assert(orig.len() == orig_len);
        }
        let mut buckets: Vec<(i64, Vec<BatchOp>)> = Vec::new();
        let mut i: usize = 0;
        proof {
            assert(orig.subrange(0, 0) =~= Seq::<BatchOp>::empty());
            assert(spec_bucket_views(buckets@) =~= Seq::<(i64, Seq<BatchOp>)>::empty());
            assert(orig.skip(0) =~= orig);
        }
        while remaining.len() > 0
            invariant
                i + remaining@.len() == orig.len(),
                remaining@ == orig.skip(i as int),
                i <= orig.len(),
                orig.len() <= usize::MAX,
                self.wf(),
                ObTableClient::spec_unchanged(*old(self), *self),
                old(self).initialized && !old(self).closed,
                orig == batch.ops@,
                atomic == batch.atomic,
                *e == ge,
                ge.spec_routable(),
                spec_has_table(old(self).tables@, table_name@),
                spec_table_at(old(self).tables@, table_name@).entry == Some(ge),
                spec_buckets(ge, orig.subrange(0, i as int)) == Some(spec_bucket_views(buckets@)),
            decreases remaining@.len(),
        {
            let op = remaining.remove(0);
            proof {
                assert(orig.skip(i as int)[0] == orig[i as int]);
                assert(orig.skip(i as int).skip(1) =~= orig.skip(i as int + 1));
            }
            let pid = match self.get_partition(e, op.row_keys.as_slice()) {
                Ok(pid) => pid,
                Err(err) => {
                    proof {
                        lemma_buckets_none(ge, orig, i as int);
                    }
                    return Err(err);
                },
            };
            let ghost pre_views = spec_bucket_views(buckets@);
            let ghost gop = op;
            match find_bucket(&buckets, pid) {
                Some(j) => {
                    proof {
                        lemma_bucket_idx_valid(pre_views, pid);
                    }
                    let mut pair = buckets.remove(j);
                    pair.1.push(op);
                    buckets.insert(j, pair);
                    proof {
                        assert(spec_bucket_views(buckets@) =~~= pre_views.update(
                            j as int,
                            (pid, pre_views[j as int].1.push(gop)),
                        ));
                    }
                },
                None => {
                    let single = vec![op];
                    buckets.push((pid, single));
                    proof {
                        assert(spec_bucket_views(buckets@) =~~= pre_views.push(
                            (pid, seq![gop]),
                        ));
                    }
                },
            }
            proof {
                assert(orig.subrange(0, i as int + 1).drop_last() =~= orig.subrange(0, i as int));
                assert(orig.subrange(0, i as int + 1).last() == orig[i as int]);
                assert(spec_bucket_views(buckets@) =~~= spec_add_to_buckets(pre_views, pid, gop));
            }
            i = i + 1;
        }
        proof {
            assert(orig.subrange(0, orig.len() as int) =~= orig);
        }
        let ghost gbs = spec_bucket_views(buckets@);
        if buckets.len() == 0 {
            let plans: Vec<PartBatch> = Vec::new();
            return Ok(plans);
        }
        if atomic && buckets.len() > 1 {
            return Err(common_err(
                CommonErrCode::ObException(ResultCodes::OB_INVALID_PARTITION),
                "the batch is atomic but its operations span several partitions",
            ));
        }
        let mut addrs: Vec<crate::location::ObServerAddr> = Vec::new();
        let mut k: usize = 0;
        while k < buckets.len()
            invariant
                k <= buckets@.len(),
                addrs@.len() == k,
                *e == ge,
                self.wf(),
                ObTableClient::spec_unchanged(*old(self), *self),
                old(self).initialized && !old(self).closed,
                spec_has_table(old(self).tables@, table_name@),
                spec_table_at(old(self).tables@, table_name@).entry == Some(ge),
                spec_buckets(ge, batch.ops@) == Some(gbs),
                !(batch.atomic && gbs.len() > 1),
                gbs == spec_bucket_views(buckets@),
                gbs.len() == buckets@.len(),
                forall|j: int|
                    #![all_triggers]
                    0 <= j < k ==> crate::client::spec_leader_of(ge, gbs[j].0) is Some && addrs@[
                        j
                    ].ip@ == crate::client::spec_leader_of(ge, gbs[j].0)->Some_0.addr.ip@
                        && addrs@[j].svr_port == crate::client::spec_leader_of(
                        ge,
                        gbs[j].0,
                    )->Some_0.addr.svr_port,
            decreases buckets@.len() - k,
        {
            proof {
                assert(gbs[k as int].0 == buckets@[k as int].0);
            }
            let ghost pre_addrs = addrs@;
            match self.get_partition_leader(e, buckets[k].0) {
                Some(l) => {
                    addrs.push(l.addr.clone());
                },
                None => {
                    proof {
                        assert(crate::client::spec_leader_of(ge, gbs[k as int].0) is None);
                    }
                    return Err(common_err(
                        CommonErrCode::NotFound,
                        "a partition of the batch has no leader replica in the cached entry",
                    ));
                },
            }
            proof {
                assert forall|j: int|
                    #![all_triggers]
                    0 <= j < k + 1 implies crate::client::spec_leader_of(ge, gbs[j].0) is Some
                    && addrs@[j].ip@ == crate::client::spec_leader_of(
                    ge,
                    gbs[j].0,
                )->Some_0.addr.ip@ && addrs@[j].svr_port == crate::client::spec_leader_of(
                    ge,
                    gbs[j].0,
                )->Some_0.addr.svr_port by {
                    if j < k {
                        assert(addrs@[j] == pre_addrs[j]);
                    } else {
                        assert(addrs@[j] == addrs@.last());
                    }
                }
            }
            k = k + 1;
        }
        let mut plans: Vec<PartBatch> = Vec::new();
        let mut p: usize = 0;
        let ghost gaddrs = addrs@;
        let total = buckets.len();
        while p < total
            invariant
                p <= total,
                total + plans@.len() == gbs.len() + p,
                total - p == buckets@.len(),
                buckets@.len() == addrs@.len(),
                gbs.len() == total,
                gaddrs.len() == total,
                plans@.len() == p,
                self.wf(),
                self.tables == old(self).tables,
                self.config == old(self).config,
                self.running_mode == old(self).running_mode,
                self.initialized == old(self).initialized,
                self.closed == old(self).closed,
                self.server_roster == old(self).server_roster,
                self.last_refresh_metadata_ts == old(self).last_refresh_metadata_ts,
                old(self).initialized && !old(self).closed,
                spec_has_table(old(self).tables@, table_name@),
                spec_table_at(old(self).tables@, table_name@).entry == Some(ge),
                spec_buckets(ge, batch.ops@) == Some(gbs),
                !(batch.atomic && gbs.len() > 1),
                forall|j: int|
                    #![all_triggers]
                    0 <= j < total - p ==> spec_bucket_views(buckets@)[j] == gbs[j + p]
                        && addrs@[j] == gaddrs[j + p],
                forall|j: int|
                    0 <= j < total ==> crate::client::spec_leader_of(ge, gbs[j].0) is Some && (
                    #[trigger] gaddrs[j]).ip@ == crate::client::spec_leader_of(
                        ge,
                        gbs[j].0,
                    )->Some_0.addr.ip@ && gaddrs[j].svr_port == crate::client::spec_leader_of(
                        ge,
                        gbs[j].0,
                    )->Some_0.addr.svr_port,
                atomic == batch.atomic,
                forall|j: int|
                    0 <= j < p ==> (#[trigger] plans@[j]).part_id == gbs[j].0 && plans@[j].ops@
                        == gbs[j].1 && (#[trigger] plans@[j]).atomic == atomic
                        && plans@[j].handle.addr.ip@ == gaddrs[j].ip@
                        && plans@[j].handle.addr.svr_port == gaddrs[j].svr_port,
            decreases total - p,
        {
            let ghost pre_buckets = spec_bucket_views(buckets@);
            let ghost pre_bvec = buckets@;
            let ghost pre_addrs = addrs@;
            let pair = buckets.remove(0);
            let addr = addrs.remove(0);
            let h = self.get_or_create_handle(&addr);
            let ghost gpair_v = (pair.0, pair.1@);
            plans.push(PartBatch { part_id: pair.0, handle: h, ops: pair.1, atomic });
            proof {
                assert(gpair_v == pre_buckets[0]);
                assert(pre_buckets[0] == gbs[p as int]);
                assert(pre_addrs[0] == gaddrs[p as int]);
                assert forall|j: int|
                    #![all_triggers]
                    0 <= j < total - p - 1 implies spec_bucket_views(buckets@)[j] == gbs[j + p
                    + 1] && addrs@[j] == gaddrs[j + p + 1] by {
                    assert(buckets@[j] == pre_bvec[j + 1]);
                    assert(spec_bucket_views(buckets@)[j] == (buckets@[j].0, buckets@[j].1@));
                    assert(pre_buckets[j + 1] == (pre_bvec[j + 1].0, pre_bvec[j + 1].1@));
                    assert(pre_buckets[j + 1] == gbs[j + p + 1]);
                    assert(addrs@[j] == pre_addrs[j + 1]);
                }
                assert forall|j: int|
                    0 <= j < p + 1 implies ((#[trigger] plans@[j]).part_id == gbs[j].0
                    && plans@[j].ops@ == gbs[j].1 && plans@[j].handle.addr.ip@ == gaddrs[j].ip@
                    && plans@[j].handle.addr.svr_port == gaddrs[j].svr_port) by {
                    if j == p {
                        assert(plans@[j] == plans@.last());
                    }
                }
            }
            p = p + 1;
        }
        proof {
            assert forall|j: int|
                0 <= j < gbs.len() implies ((#[trigger] plans@[j]).part_id == gbs[j].0
                && plans@[j].ops@ == gbs[j].1 && plans@[j].atomic == batch.atomic
                && crate::client::spec_leader_of(ge, gbs[j].0)
                is Some && plans@[j].handle.addr.ip@ == crate::client::spec_leader_of(
                ge,
                gbs[j].0,
            )->Some_0.addr.ip@ && plans@[j].handle.addr.svr_port
                == crate::client::spec_leader_of(ge, gbs[j].0)->Some_0.addr.svr_port) by {
            }
        }
        Ok(plans)
    }
}

/// The flattening of per-bucket results back into one list, bucket after
/// bucket.
pub open spec fn spec_flatten_results(rs: Seq<Seq<TableOpResult>>) -> Seq<TableOpResult>
    decreases rs.len(),
{
    if rs.len() == 0 {
        Seq::empty()
    } else {
        rs[0] + spec_flatten_results(rs.skip(1))
    }
}

/// The views of a list of result lists.
pub open spec fn spec_result_views(rs: Seq<Vec<TableOpResult>>) -> Seq<Seq<TableOpResult>> {
    rs.map_values(|v: Vec<TableOpResult>| v@)
}

/// Flattens the per-bucket result lists of a dispatched batch,
/// preserving the order within each bucket and the bucket order.
pub fn flatten_batch_results(results: Vec<Vec<TableOpResult>>) -> (r: Vec<TableOpResult>)
    ensures
        r@ == spec_flatten_results(spec_result_views(results@)),
{
    let ghost all = spec_result_views(results@);
    let mut out: Vec<TableOpResult> = Vec::new();
    let mut rest = results;
    let ghost n = all.len();
    proof {
        assert(all.skip(0) =~= all);
    }
    while rest.len() > 0
        invariant
            n == all.len(),
            rest@.len() <= n,
            spec_result_views(rest@) =~~= all.skip(n - rest@.len()),
            out@ + spec_flatten_results(all.skip(n - rest@.len())) =~= spec_flatten_results(all),
        decreases rest@.len(),
    {
        let ghost pre_rest = spec_result_views(rest@);
        let ghost pre_rvec = rest@;
        let ghost pre_out = out@;
        let mut part = rest.remove(0);
        proof {
            assert(pre_rest[0] == part@);
        }
        out.append(&mut part);
        proof {
            assert forall|j: int|
                0 <= j < rest@.len() implies spec_result_views(rest@)[j] == pre_rest[j + 1] by {
                assert(rest@[j] == pre_rvec[j + 1]);
                assert(spec_result_views(rest@)[j] == rest@[j]@);
                assert(pre_rest[j + 1] == pre_rvec[j + 1]@);
            }
            assert(spec_result_views(rest@) =~~= pre_rest.skip(1));
            assert(pre_rest == all.skip(n - pre_rvec.len()));
            assert(pre_rest.skip(1) == all.skip(n - pre_rvec.len()).skip(1));
            assert(all.skip(n - pre_rvec.len()).skip(1) =~~= all.skip(n - rest@.len())) by {
                assert(rest@.len() + 1 == pre_rvec.len());
                assert(pre_rvec.len() <= n);
                assert forall|j: int|
                    0 <= j < rest@.len() implies #[trigger] all.skip(n - pre_rvec.len()).skip(
                    1,
                )[j] == all.skip(n - rest@.len())[j] by {
                    vstd::seq_lib::lemma_seq_skip_index(
                        all.skip(n - pre_rvec.len()),
                        1,
                        j,
                    );
                    vstd::seq_lib::lemma_seq_skip_index(all, n - pre_rvec.len(), j + 1);
                    vstd::seq_lib::lemma_seq_skip_index(all, n - rest@.len(), j);
                }
                assert(all.skip(n - pre_rvec.len()).skip(1).len() == all.skip(
                    n - rest@.len(),
                ).len());
            }
            assert(pre_rest.skip(1) =~~= all.skip(n - rest@.len()));
            assert(out@ == pre_out + pre_rest[0]);
            assert(out@ + spec_flatten_results(all.skip(n - rest@.len())) =~= spec_flatten_results(
                all,
            )) by {
                assert(all.skip(n - pre_rvec.len())[0] == pre_rest[0]);
                assert(all.skip(n - pre_rvec.len()).skip(1) =~~= all.skip(n - rest@.len()));
            }
        }
    }
    proof {
        assert(all.skip(n - 0) =~= Seq::<Seq<TableOpResult>>::empty());
        assert(out@ + Seq::<TableOpResult>::empty() =~= out@);
    }
    out
}

} // verus!
