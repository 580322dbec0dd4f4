//! Table queries: the scan builder and the partition fan-out plan.
//!
//! A query aggregates key ranges, projection, limits and scan options.
//! Planning a query resolves every range to the partitions it must visit
//! and pairs each partition, once, with a handle to its leader's backend;
//! the runtime then streams the partitions one at a time, taking a
//! concurrency permit per partition call when a limit is configured.

use vstd::prelude::*;

use crate::client::{BackendHandle, ObTableClient};
use crate::error::{common_err, CommonErrCode, Error};
use crate::value::Value;

verus! {

/// The direction of a scan.
#[derive(Clone, Copy, Debug, PartialEq, Eq, Structural)]
pub enum ObScanOrder {
    Forward,
    Reverse,
}

impl ObScanOrder {
    /// Forward for `true`, reverse for `false`.
    pub fn from_bool(forward: bool) -> (r: ObScanOrder)
        ensures
            r == if forward {
                ObScanOrder::Forward
            } else {
                ObScanOrder::Reverse
            },
    {
        if forward {
            ObScanOrder::Forward
        } else {
            ObScanOrder::Reverse
        }
    }
}

/// How result rows are shaped on the wire.
#[derive(Clone, Copy, Debug, PartialEq, Eq, Structural)]
pub enum ObTableEntityType {
    Dynamic,
    KV,
    HKV,
}

/// One scan range: start and end tuples with their inclusivities.
#[derive(Debug)]
pub struct KeyRange {
    pub start: Vec<Value>,
    pub start_inclusive: bool,
    pub end: Vec<Value>,
    pub end_inclusive: bool,
}

/// A query over one table, built up by the methods below.
#[derive(Debug)]
pub struct ObTableClientQueryImpl {
    pub table_name: String,
    pub entity_type: ObTableEntityType,
    pub operation_timeout_ms: Option<u64>,
    pub key_ranges: Vec<KeyRange>,
    pub select_columns: Vec<String>,
    pub limit: i32,
    pub offset: i32,
    pub scan_order: ObScanOrder,
    pub index_name: Option<String>,
    pub filter_string: Option<String>,
    pub htable_filter: Option<String>,
    pub batch_size: i32,
}

impl ObTableClientQueryImpl {
    /// A fresh query over `table_name` with no ranges, full projection
    /// and default options.
    pub fn new(table_name: &String) -> (q: ObTableClientQueryImpl)
        ensures
            q.table_name@ == table_name@,
            q.key_ranges@.len() == 0,
            q.select_columns@.len() == 0,
            q.entity_type is Dynamic,
            q.operation_timeout_ms is None,
            q.limit == -1,
            q.offset == 0,
            q.scan_order is Forward,
            q.index_name is None,
            q.filter_string is None,
            q.htable_filter is None,
            q.batch_size == -1,
    {
        ObTableClientQueryImpl {
            table_name: table_name.clone(),
            entity_type: ObTableEntityType::Dynamic,
            operation_timeout_ms: None,
            key_ranges: Vec::new(),
            select_columns: Vec::new(),
            limit: -1,
            offset: 0,
            scan_order: ObScanOrder::Forward,
            index_name: None,
            filter_string: None,
            htable_filter: None,
            batch_size: -1,
        }
    }

    /// The name of the queried table.
    pub fn get_table_name(&self) -> (r: &String)
        ensures
            r == &self.table_name,
    {
        &self.table_name
    }

    pub fn set_entity_type(&mut self, entity_type: ObTableEntityType)
        ensures
            final(self).entity_type == entity_type,
            final(self).table_name == old(self).table_name,
            final(self).operation_timeout_ms == old(self).operation_timeout_ms,
            final(self).key_ranges == old(self).key_ranges,
            final(self).select_columns == old(self).select_columns,
            final(self).limit == old(self).limit,
            final(self).offset == old(self).offset,
            final(self).scan_order == old(self).scan_order,
            final(self).index_name == old(self).index_name,
            final(self).filter_string == old(self).filter_string,
            final(self).htable_filter == old(self).htable_filter,
            final(self).batch_size == old(self).batch_size,
    {
        self.entity_type = entity_type;
    }

    pub fn entity_type(&self) -> (r: ObTableEntityType)
        ensures
            r == self.entity_type,
    {
        self.entity_type
    }

    /// Restricts the projection to the given columns.
    pub fn select(self, columns: Vec<String>) -> (q: Self)
        ensures
            q == (ObTableClientQueryImpl { select_columns: columns, ..self }),
    {
        let mut q = self;
        q.select_columns = columns;
        q
    }

    /// Caps the number of result rows, with an optional starting offset.
    pub fn limit(self, offset: Option<i32>, limit: i32) -> (q: Self)
        ensures
            q == (ObTableClientQueryImpl {
                limit,
                offset: match offset {
                    Some(o) => o,
                    None => self.offset,
                },
                ..self
            }),
    {
        let mut q = self;
        if let Some(o) = offset {
            q.offset = o;
        }
        q.limit = limit;
        q
    }

    /// Adds one scan range with explicit endpoint inclusivities.
    pub fn add_scan_range(
        self,
        start: Vec<Value>,
        start_equals: bool,
        end: Vec<Value>,
        end_equals: bool,
    ) -> (q: Self)
        ensures
            q == (ObTableClientQueryImpl {
                key_ranges: q.key_ranges,
                ..self
            }),
            q.key_ranges@ == self.key_ranges@.push(
                KeyRange { start, start_inclusive: start_equals, end, end_inclusive: end_equals },
            ),
    {
        let mut q = self;
        q.key_ranges.push(
            KeyRange { start, start_inclusive: start_equals, end, end_inclusive: end_equals },
        );
        proof {
            assert(q.key_ranges@.subrange(0, self.key_ranges@.len() as int)
                =~= self.key_ranges@);
        }
        q
    }

    /// Adds a range scanning everything at or above `start`: the end
    /// tuple is `Max` in every column.
    pub fn add_scan_range_starts_with(self, start: Vec<Value>, start_equals: bool) -> (q: Self)
        ensures
            q == (ObTableClientQueryImpl { key_ranges: q.key_ranges, ..self }),
            q.key_ranges@.len() == self.key_ranges@.len() + 1,
            q.key_ranges@.subrange(0, self.key_ranges@.len() as int) == self.key_ranges@,
            q.key_ranges@.last().start == start,
            q.key_ranges@.last().start_inclusive == start_equals,
            q.key_ranges@.last().end@.len() == start@.len(),
            forall|i: int|
                0 <= i < start@.len() ==> q.key_ranges@.last().end@[i] is Max,
            q.key_ranges@.last().end_inclusive,
    {
        let mut end: Vec<Value> = Vec::new();
        let n = start.len();
        let mut i: usize = 0;
        while i < n
            invariant
                i <= n,
                end@.len() == i,
                forall|j: int| 0 <= j < i ==> end@[j] is Max,
            decreases n - i,
        {
            end.push(Value::get_max());
            i = i + 1;
        }
        let mut q = self;
        q.key_ranges.push(
            KeyRange { start, start_inclusive: start_equals, end, end_inclusive: true },
        );
        proof {
            assert(q.key_ranges@.subrange(0, self.key_ranges@.len() as int)
                =~= self.key_ranges@);
        }
        q
    }

    /// Adds a range scanning everything at or below `end`: the start
    /// tuple is `Min` in every column.
    pub fn add_scan_range_ends_with(self, end: Vec<Value>, end_equals: bool) -> (q: Self)
        ensures
            q == (ObTableClientQueryImpl { key_ranges: q.key_ranges, ..self }),
            q.key_ranges@.len() == self.key_ranges@.len() + 1,
            q.key_ranges@.subrange(0, self.key_ranges@.len() as int) == self.key_ranges@,
            q.key_ranges@.last().end == end,
            q.key_ranges@.last().end_inclusive == end_equals,
            q.key_ranges@.last().start@.len() == end@.len(),
            forall|i: int|
                0 <= i < end@.len() ==> q.key_ranges@.last().start@[i] is Min,
            q.key_ranges@.last().start_inclusive,
    {
        let mut start: Vec<Value> = Vec::new();
        let n = end.len();
        let mut i: usize = 0;
        while i < n
            invariant
                i <= n,
                start@.len() == i,
                forall|j: int| 0 <= j < i ==> start@[j] is Min,
            decreases n - i,
        {
            start.push(Value::get_min());
            i = i + 1;
        }
        let mut q = self;
        q.key_ranges.push(
            KeyRange { start, start_inclusive: true, end, end_inclusive: end_equals },
        );
        proof {
            assert(q.key_ranges@.subrange(0, self.key_ranges@.len() as int)
                =~= self.key_ranges@);
        }
        q
    }

    /// Sets the scan direction.
    pub fn scan_order(self, forward: bool) -> (q: Self)
        ensures
            q == (ObTableClientQueryImpl {
                scan_order: if forward {
                    ObScanOrder::Forward
                } else {
                    ObScanOrder::Reverse
                },
                ..self
            }),
    {
        let mut q = self;
        q.scan_order = ObScanOrder::from_bool(forward);
        q
    }

    /// Scans through the named index.
    pub fn index_name(self, index_name: &String) -> (q: Self)
        ensures
            q == (ObTableClientQueryImpl { index_name: q.index_name, ..self }),
            q.index_name matches Some(n) && n@ == index_name@,
    {
        let mut q = self;
        q.index_name = Some(index_name.clone());
        q
    }

    /// Attaches a filter expression.
    pub fn filter_string(self, filter_string: &String) -> (q: Self)
        ensures
            q == (ObTableClientQueryImpl { filter_string: q.filter_string, ..self }),
            q.filter_string matches Some(f) && f@ == filter_string@,
    {
        let mut q = self;
        q.filter_string = Some(filter_string.clone());
        q
    }

    /// Attaches an HBase-style filter.
    pub fn htable_filter(self, filter: &String) -> (q: Self)
        ensures
            q == (ObTableClientQueryImpl { htable_filter: q.htable_filter, ..self }),
            q.htable_filter matches Some(f) && f@ == filter@,
    {
        let mut q = self;
        q.htable_filter = Some(filter.clone());
        q
    }

    /// Sets how many rows each stream frame carries.
    pub fn batch_size(self, batch_size: i32) -> (q: Self)
        ensures
            q == (ObTableClientQueryImpl { batch_size, ..self }),
    {
        let mut q = self;
        q.batch_size = batch_size;
        q
    }

    /// Sets the per-operation deadline.
    pub fn operation_timeout(self, timeout_ms: u64) -> (q: Self)
        ensures
            q == (ObTableClientQueryImpl { operation_timeout_ms: Some(timeout_ms), ..self }),
    {
        let mut q = self;
        q.operation_timeout_ms = Some(timeout_ms);
        q
    }

    /// Drops every range and option set so far, keeping the table.
    pub fn clear(&mut self)
        ensures
            final(self).table_name@ == old(self).table_name@,
            final(self).key_ranges@.len() == 0,
            final(self).select_columns@.len() == 0,
            final(self).entity_type is Dynamic,
            final(self).operation_timeout_ms is None,
            final(self).limit == -1,
            final(self).offset == 0,
            final(self).scan_order is Forward,
            final(self).index_name is None,
            final(self).filter_string is None,
            final(self).htable_filter is None,
            final(self).batch_size == -1,
    {
        let fresh = ObTableClientQueryImpl::new(&self.table_name);
        *self = fresh;
    }
}

/// No two plan entries visit the same partition.
pub open spec fn spec_distinct_part_ids(v: Seq<(i64, BackendHandle)>) -> bool {
    forall|a: int, b: int| 0 <= a < b < v.len() ==> (#[trigger] v[a]).0 != (#[trigger] v[b]).0
}

/// The partition ids the expansion of `kr` under `e` names: partition
/// 0 alone for unpartitioned and level-zero tables, the first-level
/// descriptor's expansion at level one, and nothing where the expansion
/// is undefined.
pub open spec fn spec_expansion_ids(e: crate::table_entry::TableEntry, kr: KeyRange) -> Seq<
    i64,
> {
    crate::client::spec_scan_ids(e, kr.start@, kr.start_inclusive, kr.end@, kr.end_inclusive)
}

/// A range is routable under the entry and the registry: its expansion
/// resolves, every expanded partition has a leader, and every leader has
/// a registered backend handle.
pub open spec fn spec_range_routable(
    roster: Seq<BackendHandle>,
    e: crate::table_entry::TableEntry,
    kr: KeyRange,
) -> bool {
    &&& crate::client::spec_scan_defined(
        e,
        kr.start@,
        kr.start_inclusive,
        kr.end@,
        kr.end_inclusive,
    )
    &&& crate::client::spec_all_leaders(e, spec_expansion_ids(e, kr))
    &&& crate::client::spec_all_handles(roster, e, spec_expansion_ids(e, kr))
}

/// The plan visits partition `pid`.
pub open spec fn spec_plan_has(v: Seq<(i64, BackendHandle)>, pid: i64) -> bool {
    exists|k: int| 0 <= k < v.len() && (#[trigger] v[k]).0 == pid
}

/// The plan visits every partition the expansion of `kr` under `e`
/// names.
pub open spec fn spec_plan_covers(
    e: crate::table_entry::TableEntry,
    kr: KeyRange,
    v: Seq<(i64, BackendHandle)>,
) -> bool {
    forall|j: int|
        0 <= j < spec_expansion_ids(e, kr).len() ==> spec_plan_has(
            v,
            #[trigger] spec_expansion_ids(e, kr)[j],
        )
}

/// A range whose expanded pairs all appear in the plan is covered by
/// the plan.
proof fn lemma_range_covered(
    e: crate::table_entry::TableEntry,
    kr: KeyRange,
    pairs: Seq<(i64, BackendHandle)>,
    v: Seq<(i64, BackendHandle)>,
)
    requires
        pairs.len() == spec_expansion_ids(e, kr).len(),
        forall|j: int|
            0 <= j < pairs.len() ==> (#[trigger] pairs[j]).0 == spec_expansion_ids(e, kr)[j],
        forall|j: int|
            0 <= j < pairs.len() ==> exists|k: int|
                0 <= k < v.len() && (#[trigger] v[k]).0 == (#[trigger] pairs[j]).0,
    ensures
        spec_plan_covers(e, kr, v),
{
    assert forall|j: int| 0 <= j < spec_expansion_ids(e, kr).len() implies spec_plan_has(
        v,
        #[trigger] spec_expansion_ids(e, kr)[j],
    ) by {
        assert(pairs[j].0 == spec_expansion_ids(e, kr)[j]);
        let k = choose|k: int| 0 <= k < v.len() && (#[trigger] v[k]).0 == pairs[j].0;
        assert(0 <= k < v.len() && v[k].0 == spec_expansion_ids(e, kr)[j]);
    }
}

/// Growing a plan keeps everything it already covered.
proof fn lemma_plan_covers_grows(
    e: crate::table_entry::TableEntry,
    kr: KeyRange,
    v: Seq<(i64, BackendHandle)>,
    v2: Seq<(i64, BackendHandle)>,
)
    requires
        spec_plan_covers(e, kr, v),
        v2.len() >= v.len(),
        forall|k: int| 0 <= k < v.len() ==> v2[k] == v[k],
    ensures
        spec_plan_covers(e, kr, v2),
{
    assert forall|j: int| 0 <= j < spec_expansion_ids(e, kr).len() implies spec_plan_has(
        v2,
        #[trigger] spec_expansion_ids(e, kr)[j],
    ) by {
        assert(spec_plan_has(v, spec_expansion_ids(e, kr)[j]));
        let k = choose|k: int|
            0 <= k < v.len() && (#[trigger] v[k]).0 == spec_expansion_ids(e, kr)[j];
        assert(0 <= k < v2.len() && v2[k].0 == spec_expansion_ids(e, kr)[j]);
    }
}

/// Tests whether a plan already visits partition `pid`.
fn contains_part_id(v: &Vec<(i64, BackendHandle)>, pid: i64) -> (r: bool)
    ensures
        r == exists|a: int| 0 <= a < v@.len() && (#[trigger] v@[a]).0 == pid,
{
    let mut i: usize = 0;
    while i < v.len()
        invariant
            i <= v@.len(),
            forall|a: int| 0 <= a < i ==> (#[trigger] v@[a]).0 != pid,
        decreases v@.len() - i,
    {
        if v[i].0 == pid {
            proof {
                assert((v@[i as int]).0 == pid);
            }
            return true;
        }
        i = i + 1;
    }
    false
}

impl ObTableClient {
    /// A fresh query over a table of this client.
    pub fn query(&self, table_name: &String) -> (q: ObTableClientQueryImpl)
        ensures
            q.table_name@ == table_name@,
            q.key_ranges@.len() == 0,
    {
        ObTableClientQueryImpl::new(table_name)
    }

    /// Resolves a query to the set of partitions it must visit, each
    /// exactly once, paired with the handle of its leader's backend.
    ///
    /// Every key range is expanded through the cached entry of the
    /// queried table; a query without ranges is malformed. Range scans
    /// over two-level partitioned tables are not supported: such a query
    /// fails with a `PartitionError`.
    pub fn plan_query(&self, query: &ObTableClientQueryImpl, now_ms: u64) -> (r: Result<
        Vec<(i64, BackendHandle)>,
        Error,
    >)
        requires
            self.wf(),
        ensures
            r is Ok <==> ({
                let en = crate::client::spec_table_at(
                    self.tables@,
                    query.table_name@,
                ).entry->Some_0;
                &&& query.key_ranges@.len() > 0
                &&& self.spec_cache_usable(query.table_name@, false, now_ms)
                &&& forall|ri: int|
                    0 <= ri < query.key_ranges@.len() ==> spec_range_routable(
                        self.table_roster@,
                        en,
                        #[trigger] query.key_ranges@[ri],
                    )
            }),
            match r {
                Ok(v) => ({
                    let e = crate::client::spec_table_at(
                        self.tables@,
                        query.table_name@,
                    ).entry->Some_0;
                    &&& spec_distinct_part_ids(v@)
                    &&& forall|ri: int|
                        0 <= ri < query.key_ranges@.len() ==> spec_plan_covers(
                            e,
                            #[trigger] query.key_ranges@[ri],
                            v@,
                        )
                }),
                Err(e) => ({
                    let en = crate::client::spec_table_at(
                        self.tables@,
                        query.table_name@,
                    ).entry->Some_0;
                    let usable = self.spec_cache_usable(query.table_name@, false, now_ms);
                    &&& (e.spec_code() is NotFound || e.spec_code() is PartitionError)
                    &&& (query.key_ranges@.len() == 0 ==> e.spec_code() is PartitionError)
                    &&& (query.key_ranges@.len() > 0 ==> exists|ri: int|
                        ({
                            &&& 0 <= ri < query.key_ranges@.len()
                            &&& (forall|r2: int|
                                0 <= r2 < ri ==> spec_range_routable(
                                    self.table_roster@,
                                    en,
                                    #[trigger] query.key_ranges@[r2],
                                ))
                            &&& !(usable && spec_range_routable(
                                self.table_roster@,
                                en,
                                #[trigger] query.key_ranges@[ri],
                            ))
                            &&& ({
                                let kr = query.key_ranges@[ri];
                                &&& (e.spec_code() is PartitionError <==> usable
                                    && crate::client::spec_scan_partition_error(
                                    en,
                                    kr.start@,
                                    kr.start_inclusive,
                                    kr.end@,
                                    kr.end_inclusive,
                                ))
                            })
                        }))
                }),
            },
            ({
                let e = crate::client::spec_table_at(
                    self.tables@,
                    query.table_name@,
                ).entry->Some_0;
                (query.key_ranges@.len() > 0 && self.spec_cache_usable(
                    query.table_name@,
                    false,
                    now_ms,
                ) && e.spec_is_partition_table() && !(e.spec_level() is Zero) && !(e.spec_level()
                    is One)) ==> (r matches Err(err) && err matches Error::Common(c, m) && c
                    is PartitionError && m@ == "Unsupported partition level two right now"@)
            }),
    {
        if query.key_ranges.len() == 0 {
            return Err(common_err(
                CommonErrCode::PartitionError,
                "the query defines no scan range",
            ));
        }
        let mut out: Vec<(i64, BackendHandle)> = Vec::new();
        let mut ri: usize = 0;
        let nr = query.key_ranges.len();
        let ghost ge = crate::client::spec_table_at(self.tables@, query.table_name@).entry->Some_0;
        while ri < nr
            invariant
                ri <= nr,
                nr == query.key_ranges@.len(),
                nr > 0,
                self.wf(),
                spec_distinct_part_ids(out@),
                ge == crate::client::spec_table_at(self.tables@, query.table_name@).entry->Some_0,
                ri > 0 ==> self.spec_cache_usable(query.table_name@, false, now_ms),
                forall|r2: int|
                    0 <= r2 < ri ==> spec_range_routable(
                        self.table_roster@,
                        ge,
                        #[trigger] query.key_ranges@[r2],
                    ),
                forall|r2: int|
                    0 <= r2 < ri ==> spec_plan_covers(ge, #[trigger] query.key_ranges@[r2], out@),
            decreases nr - ri,
        {
            let range = &query.key_ranges[ri];
            let ghost gkr = query.key_ranges@[ri as int];
            let pairs = match self.get_tables(
                &query.table_name,
                range.start.as_slice(),
                range.start_inclusive,
                range.end.as_slice(),
                range.end_inclusive,
                false,
                now_ms,
            ) {
                Ok(pairs) => {
                    proof {
                        assert(spec_range_routable(self.table_roster@, ge, gkr));
                    }
                    pairs
                },
                Err(e) => {
                    proof {
                        assert(!(self.spec_cache_usable(query.table_name@, false, now_ms)
                            && spec_range_routable(self.table_roster@, ge, gkr)));
                        assert(0 <= ri < query.key_ranges@.len() && (forall|r2: int|
                            0 <= r2 < ri ==> spec_range_routable(
                                self.table_roster@,
                                ge,
                                #[trigger] query.key_ranges@[r2],
                            )));
                    }
                    return Err(e);
                },
            };
            let ghost gpairs = pairs@;
            let mut pi: usize = 0;
            while pi < pairs.len()
                invariant
                    pi <= pairs@.len(),
                    pairs@ == gpairs,
                    spec_distinct_part_ids(out@),
                    ge == crate::client::spec_table_at(
                        self.tables@,
                        query.table_name@,
                    ).entry->Some_0,
                    forall|r2: int|
                        0 <= r2 < ri ==> spec_plan_covers(
                            ge,
                            #[trigger] query.key_ranges@[r2],
                            out@,
                        ),
                    forall|j: int|
                        0 <= j < pi ==> exists|k: int|
                            0 <= k < out@.len() && (#[trigger] out@[k]).0 == (
                            #[trigger] gpairs[j]).0,
                decreases pairs@.len() - pi,
            {
                let pid = pairs[pi].0;
                let seen = contains_part_id(&out, pid);
                let ghost pre_out = out@;
                if !seen {
                    let h = pairs[pi].1.clone();
                    out.push((pid, h));
                    proof {
                        assert forall|a: int, b: int|
                            0 <= a < b < out@.len() implies (#[trigger] out@[a]).0 != (
                        #[trigger] out@[b]).0 by {
                            if b == out@.len() - 1 {
                                assert(out@[a] == pre_out[a]);
                            } else {
                                assert(out@[a] == pre_out[a]);
                                assert(out@[b] == pre_out[b]);
                            }
                        }
                        assert forall|r2: int| 0 <= r2 < ri implies spec_plan_covers(
                            ge,
                            #[trigger] query.key_ranges@[r2],
                            out@,
                        ) by {
                            lemma_plan_covers_grows(ge, query.key_ranges@[r2], pre_out, out@);
                        }
                    }
                }
                proof {
                    assert forall|j: int| 0 <= j < pi + 1 implies exists|k: int|
                        0 <= k < out@.len() && (#[trigger] out@[k]).0 == (
                    #[trigger] gpairs[j]).0 by {
                        if j < pi {
                            let k = choose|k: int|
                                0 <= k < pre_out.len() && (#[trigger] pre_out[k]).0
                                    == gpairs[j].0;
                            assert(out@[k].0 == gpairs[j].0);
                        } else {
                            if seen {
                                let k = choose|k: int|
                                    0 <= k < pre_out.len() && (#[trigger] pre_out[k]).0 == pid;
                                assert(out@[k].0 == pid);
                            } else {
                                assert(out@[out@.len() - 1].0 == pid);
                            }
                        }
                    }
                }
                pi = pi + 1;
            }
            proof {
                let kr = query.key_ranges@[ri as int];
                assert(gpairs.len() == spec_expansion_ids(ge, kr).len() && forall|j: int|
                    0 <= j < gpairs.len() ==> (#[trigger] gpairs[j]).0 == spec_expansion_ids(
                        ge,
                        kr,
                    )[j]) by {
                    if !ge.spec_is_partition_table() || ge.spec_level() is Zero {
                        assert(spec_expansion_ids(ge, kr) =~= seq![0i64]);
                    }
                }
                assert(pi == gpairs.len());
                assert forall|j: int| 0 <= j < gpairs.len() implies exists|k: int|
                    0 <= k < out@.len() && (#[trigger] out@[k]).0 == (#[trigger] gpairs[j]).0 by {
                    assert(0 <= j < pi);
                }
                lemma_range_covered(ge, kr, gpairs, out@);
            }
            ri = ri + 1;
        }
        proof {
            if ge.spec_is_partition_table() && !(ge.spec_level() is Zero) && !(ge.spec_level()
                is One) {
                assert(spec_range_routable(self.table_roster@, ge, query.key_ranges@[0]));
                assert(false);
            }
        }
        Ok(out)
    }
}

} // verus!
