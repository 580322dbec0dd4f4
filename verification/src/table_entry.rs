//! Table metadata snapshots.
//!
//! A `TableEntry` is the immutable metadata of one table at one refresh
//! instant: its id, partitioning information, per-partition replica
//! locations, the replica locations of the table as a whole, the refresh
//! timestamp, and the row-key element — the ordered list of row-key column
//! names against which the partition descriptors resolve their ordinals.

use vstd::prelude::*;

use crate::error::{common_err, CommonErrCode, Error};
use crate::location::{ObPartitionLevel, PartitionLocation, ReplicaLocation};
use crate::part_desc::PartDesc;
use crate::strutil::string_eq;

verus! {

/// The partitioning information of a table: its level and its one or two
/// partition descriptors.
#[derive(Debug)]
pub struct ObPartitionInfo {
    pub level: ObPartitionLevel,
    pub first_part_desc: Option<PartDesc>,
    pub sub_part_desc: Option<PartDesc>,
}

/// The metadata snapshot of one table.
#[derive(Debug)]
pub struct TableEntry {
    pub table_id: u64,
    /// How many physical partitions the table has; 1 for an unpartitioned
    /// table.
    pub partition_num: u64,
    pub partition_info: Option<ObPartitionInfo>,
    /// Per partition id, the locations of that partition's replicas.
    pub partition_entry: Vec<(i64, PartitionLocation)>,
    /// The replica locations of the table as a whole (for the root
    /// catalog entry: the roster of backends).
    pub table_location: Vec<ReplicaLocation>,
    /// Wall-clock milliseconds at which this snapshot was fetched.
    pub refresh_time_mills: u64,
    /// The ordered row-key column names; a column's ordinal is its
    /// position here.
    pub row_key_element: Vec<String>,
}

/// The position of `name` in the column list; the last occurrence wins,
/// as a repeated registration of the same column overwrites the earlier
/// ordinal.
pub open spec fn spec_col_index(cols: Seq<String>, name: Seq<char>) -> Option<int>
    decreases cols.len(),
{
    if cols.len() == 0 {
        None
    } else if cols.last()@ == name {
        Some(cols.len() - 1)
    } else {
        spec_col_index(cols.drop_last(), name)
    }
}

/// Finds the position of `name` in the column list, searching from the
/// end.
pub fn col_index(cols: &Vec<String>, name: &String) -> (r: Option<usize>)
    ensures
        match r {
            Some(i) => spec_col_index(cols@, name@) == Some(i as int) && i < cols@.len(),
            None => spec_col_index(cols@, name@) is None,
        },
{
    let mut i: usize = cols.len();
    proof {
        assert(cols@.subrange(0, cols@.len() as int) =~= cols@);
    }
    while i > 0
        invariant
            i <= cols@.len(),
            spec_col_index(cols@, name@) == spec_col_index(cols@.subrange(0, i as int), name@),
        decreases i,
    {
        i = i - 1;
        proof {
            let pre = cols@.subrange(0, i as int);
            let post = cols@.subrange(0, i as int + 1);
            assert(post.drop_last() =~= pre);
            assert(post.last() == cols@[i as int]);
        }
        if string_eq(&cols[i], name) {
            return Some(i);
        }
    }
    proof {
        assert(cols@.subrange(0, 0) =~= Seq::<String>::empty());
    }
    None
}

/// Resolves each named partition-key column to its ordinal in the row
/// key.
pub fn resolve_ordinals(part_columns: &Vec<String>, cols: &Vec<String>) -> (r: Result<
    Vec<usize>,
    Error,
>)
    ensures
        match r {
            Ok(ords) => {
                &&& ords@.len() == part_columns@.len()
                &&& forall|k: int|
                    0 <= k < ords@.len() ==> spec_col_index(cols@, part_columns@[k]@) == Some(
                        ords@[k] as int,
                    )
            },
            Err(e) => {
                &&& exists|k: int|
                    0 <= k < part_columns@.len() && spec_col_index(cols@, part_columns@[k]@)
                        is None
                &&& e.spec_code() is PartitionError
            },
        },
{
    let mut ords: Vec<usize> = Vec::new();
    let mut k: usize = 0;
    while k < part_columns.len()
        invariant
            k <= part_columns@.len(),
            ords@.len() == k,
            forall|j: int|
                0 <= j < k ==> spec_col_index(cols@, part_columns@[j]@) == Some(ords@[j] as int),
        decreases part_columns@.len() - k,
    {
        match col_index(cols, &part_columns[k]) {
            Some(i) => {
                ords.push(i);
            },
            None => {
                return Err(common_err(
                    CommonErrCode::PartitionError,
                    "partition-key column is missing from the row-key element",
                ));
            },
        }
        k = k + 1;
    }
    Ok(ords)
}

/// `post` is `pre` with its ordinals resolved against the column list
/// `cols`: everything else is unchanged and each named column's ordinal
/// is its position in `cols`.
pub open spec fn spec_prepared_desc(pre: PartDesc, post: PartDesc, cols: Seq<String>) -> bool {
    &&& post.part_func_type == pre.part_func_type
    &&& post.scheme == pre.scheme
    &&& post.part_columns == pre.part_columns
    &&& post.ordinals@.len() == pre.part_columns@.len()
    &&& forall|k: int|
        0 <= k < post.ordinals@.len() ==> spec_col_index(cols, pre.part_columns@[k]@) == Some(
            post.ordinals@[k] as int,
        )
}

/// Every partition-key column the descriptor names occurs in `cols`.
pub open spec fn spec_desc_resolvable(d: PartDesc, cols: Seq<String>) -> bool {
    forall|k: int|
        0 <= k < d.part_columns@.len() ==> spec_col_index(
            cols,
            (#[trigger] d.part_columns@[k])@,
        ) is Some
}

/// Every column named by the entry's descriptors occurs in `cols`, so
/// preparation against `cols` succeeds.
pub open spec fn spec_entry_resolvable_with(e: TableEntry, cols: Seq<String>) -> bool {
    match e.partition_info {
        Some(info) => {
            &&& (info.first_part_desc matches Some(d) ==> spec_desc_resolvable(d, cols))
            &&& (info.sub_part_desc matches Some(d) ==> spec_desc_resolvable(d, cols))
        },
        None => true,
    }
}

/// A descriptor with a column the list lacks is not resolvable against
/// the list.
proof fn lemma_unresolvable(d: PartDesc, cols: Seq<String>)
    requires
        exists|k: int|
            0 <= k < d.part_columns@.len() && spec_col_index(
                cols,
                (#[trigger] d.part_columns@[k])@,
            ) is None,
    ensures
        !spec_desc_resolvable(d, cols),
{
    let k = choose|k: int|
        0 <= k < d.part_columns@.len() && spec_col_index(
            cols,
            (#[trigger] d.part_columns@[k])@,
        ) is None;
    if spec_desc_resolvable(d, cols) {
        assert(spec_col_index(cols, (d.part_columns@[k])@) is Some);
    }
}

/// `post` is `pre` with its row-key element replaced by `cols` and every
/// attached descriptor's ordinals resolved against `cols`.
pub open spec fn spec_prepared_entry(pre: TableEntry, post: TableEntry, cols: Seq<String>) -> bool {
    &&& post.table_id == pre.table_id
    &&& post.partition_num == pre.partition_num
    &&& post.partition_entry == pre.partition_entry
    &&& post.table_location == pre.table_location
    &&& post.refresh_time_mills == pre.refresh_time_mills
    &&& post.row_key_element@ == cols
    &&& match pre.partition_info {
        Some(oi) => post.partition_info matches Some(fi) && ({
            &&& fi.level == oi.level
            &&& match oi.first_part_desc {
                Some(d) => fi.first_part_desc matches Some(d2) && spec_prepared_desc(d, d2, cols),
                None => fi.first_part_desc is None,
            }
            &&& match oi.sub_part_desc {
                Some(d) => fi.sub_part_desc matches Some(d2) && spec_prepared_desc(d, d2, cols),
                None => fi.sub_part_desc is None,
            }
        }),
        None => post.partition_info is None,
    }
}

impl TableEntry {
    /// A table with more than one physical partition routes by partition
    /// id.
    pub open spec fn spec_is_partition_table(self) -> bool {
        self.partition_num > 1
    }

    pub fn is_partition_table(&self) -> (r: bool)
        ensures
            r == self.spec_is_partition_table(),
    {
        self.partition_num > 1
    }

    /// The partition level of the snapshot; `Unknown` when no
    /// partitioning information is attached.
    pub open spec fn spec_level(self) -> ObPartitionLevel {
        match self.partition_info {
            Some(info) => info.level,
            None => ObPartitionLevel::Unknown,
        }
    }

    pub fn is_partition_level(&self, level: ObPartitionLevel) -> (r: bool)
        ensures
            r == (self.spec_level() == level),
    {
        match &self.partition_info {
            Some(info) => info.level == level,
            None => ObPartitionLevel::Unknown == level,
        }
    }

    /// The descriptors attached to the snapshot are statically well
    /// formed.
    pub open spec fn spec_wf_scheme(self) -> bool {
        match self.partition_info {
            Some(info) => {
                &&& (info.first_part_desc matches Some(d) ==> d.wf_scheme())
                &&& (info.sub_part_desc matches Some(d) ==> d.wf_scheme())
            },
            None => true,
        }
    }

    /// An entry can route operations: either the table is unpartitioned,
    /// or its descriptors are well formed and prepared.
    pub open spec fn spec_routable(self) -> bool {
        self.spec_is_partition_table() ==> self.spec_wf()
    }

    /// The descriptors attached to the snapshot are well formed and
    /// prepared.
    pub open spec fn spec_wf(self) -> bool {
        match self.partition_info {
            Some(info) => {
                &&& (info.first_part_desc matches Some(d) ==> d.wf())
                &&& (info.sub_part_desc matches Some(d) ==> d.wf())
            },
            None => true,
        }
    }

    pub fn refresh_time_mills(&self) -> (t: u64)
        ensures
            t == self.refresh_time_mills,
    {
        self.refresh_time_mills
    }

    /// Overwrites the row-key element of the snapshot.
    pub fn set_row_key_element(&mut self, columns: Vec<String>)
        ensures
            final(self).row_key_element == columns,
            final(self).table_id == old(self).table_id,
            final(self).partition_num == old(self).partition_num,
            final(self).partition_info == old(self).partition_info,
            final(self).partition_entry == old(self).partition_entry,
            final(self).table_location == old(self).table_location,
            final(self).refresh_time_mills == old(self).refresh_time_mills,
    {
        self.row_key_element = columns;
    }

    /// The replica set of one partition, by its partition id.
    pub fn get_partition_location_with_part_id(&self, part_id: i64) -> (r: Option<
        &PartitionLocation,
    >)
        ensures
            match r {
                Some(loc) => spec_first_part_location(self.partition_entry@, part_id) == Some(
                    *loc,
                ),
                None => spec_first_part_location(self.partition_entry@, part_id) is None,
            },
    {
        let entries = &self.partition_entry;
        let mut i: usize = 0;
        proof {
            assert(entries@.skip(0) =~= entries@);
        }
        loop
            invariant
                i <= entries@.len(),
                entries@ == self.partition_entry@,
                spec_first_part_location(entries@, part_id) == spec_first_part_location(
                    entries@.skip(i as int),
                    part_id,
                ),
            decreases entries@.len() - i,
        {
            if i == entries.len() {
                proof {
                    assert(entries@.skip(i as int).len() == 0);
                }
                return None;
            }
            proof {
                assert(entries@.skip(i as int)[0] == entries@[i as int]);
            }
            if entries[i].0 == part_id {
                return Some(&entries[i].1);
            }
            proof {
                lemma_first_part_location_step(entries@, part_id, i as int);
            }
            i = i + 1;
        }
    }

    /// Resolves the ordinals of every attached partition descriptor
    /// against the snapshot's row-key element.
    pub fn prepare(&mut self) -> (r: Result<(), Error>)
        requires
            old(self).spec_wf_scheme(),
        ensures
            r is Ok <==> spec_entry_resolvable_with(*old(self), old(self).row_key_element@),
            match r {
                Ok(()) => {
                    &&& final(self).spec_wf()
                    &&& final(self).partition_num == old(self).partition_num
                    &&& final(self).table_id == old(self).table_id
                    &&& final(self).partition_entry == old(self).partition_entry
                    &&& final(self).table_location == old(self).table_location
                    &&& final(self).refresh_time_mills == old(self).refresh_time_mills
                    &&& final(self).row_key_element == old(self).row_key_element
                    &&& final(self).spec_level() == old(self).spec_level()
                    &&& final(self).spec_is_partition_table() == old(
                        self,
                    ).spec_is_partition_table()
                    &&& match old(self).partition_info {
                        Some(oi) => final(self).partition_info matches Some(fi) && ({
                            &&& fi.level == oi.level
                            &&& match oi.first_part_desc {
                                Some(d) => fi.first_part_desc matches Some(d2)
                                    && spec_prepared_desc(d, d2, old(self).row_key_element@),
                                None => fi.first_part_desc is None,
                            }
                            &&& match oi.sub_part_desc {
                                Some(d) => fi.sub_part_desc matches Some(d2)
                                    && spec_prepared_desc(d, d2, old(self).row_key_element@),
                                None => fi.sub_part_desc is None,
                            }
                        }),
                        None => final(self).partition_info is None && *final(self) == *old(self),
                    }
                },
                Err(e) => e.spec_code() is PartitionError && *final(self) == *old(self),
            },
    {
        let first_ords = match &self.partition_info {
            Some(info) => {
                match &info.first_part_desc {
                    Some(d) => {
                        match resolve_ordinals(&d.part_columns, &self.row_key_element) {
                            Ok(o) => Some(o),
                            Err(e) => {
                                proof {
                                    lemma_unresolvable(*d, self.row_key_element@);
                                }
                                return Err(e);
                            },
                        }
                    },
                    None => None,
                }
            },
            None => None,
        };
        let sub_ords = match &self.partition_info {
            Some(info) => {
                match &info.sub_part_desc {
                    Some(d) => {
                        match resolve_ordinals(&d.part_columns, &self.row_key_element) {
                            Ok(o) => Some(o),
                            Err(e) => {
                                proof {
                                    lemma_unresolvable(*d, self.row_key_element@);
                                }
                                return Err(e);
                            },
                        }
                    },
                    None => None,
                }
            },
            None => None,
        };
        let ghost gford = first_ords;
        let ghost gsord = sub_ords;
        match &mut self.partition_info {
            Some(info) => {
                if let Some(d) = &mut info.first_part_desc {
                    match first_ords {
                        Some(ords) => {
                            d.ordinals = ords;
                        },
                        None => {},
                    }
                }
                if let Some(d) = &mut info.sub_part_desc {
                    match sub_ords {
                        Some(ords) => {
                            d.ordinals = ords;
                        },
                        None => {},
                    }
                }
            },
            None => {},
        }
        proof {
            let cols = old(self).row_key_element@;
            match old(self).partition_info {
                Option::Some(info) => {
                    match info.first_part_desc {
                        Option::Some(d) => {
                            assert forall|k: int|
                                0 <= k < d.part_columns@.len() implies spec_col_index(
                                cols,
                                (#[trigger] d.part_columns@[k])@,
                            ) is Some by {
                                assert(spec_col_index(cols, d.part_columns@[k]@) == Some(
                                    gford->Some_0@[k] as int,
                                ));
                            }
                        },
                        Option::None => {},
                    }
                    match info.sub_part_desc {
                        Option::Some(d) => {
                            assert forall|k: int|
                                0 <= k < d.part_columns@.len() implies spec_col_index(
                                cols,
                                (#[trigger] d.part_columns@[k])@,
                            ) is Some by {
                                assert(spec_col_index(cols, d.part_columns@[k]@) == Some(
                                    gsord->Some_0@[k] as int,
                                ));
                            }
                        },
                        Option::None => {},
                    }
                },
                Option::None => {},
            }
        }
        Ok(())
    }
}

/// The replica set recorded for `part_id`, by first match.
pub open spec fn spec_first_part_location(
    entries: Seq<(i64, PartitionLocation)>,
    part_id: i64,
) -> Option<PartitionLocation>
    decreases entries.len(),
{
    if entries.len() == 0 {
        None
    } else if entries[0].0 == part_id {
        Some(entries[0].1)
    } else {
        spec_first_part_location(entries.skip(1), part_id)
    }
}

/// Stepping past an entry with another partition id leaves the lookup
/// unchanged.
proof fn lemma_first_part_location_step(
    entries: Seq<(i64, PartitionLocation)>,
    part_id: i64,
    i: int,
)
    requires
        0 <= i < entries.len(),
        entries[i].0 != part_id,
    ensures
        spec_first_part_location(entries.skip(i), part_id) == spec_first_part_location(
            entries.skip(i + 1),
            part_id,
        ),
{
    let s = entries.skip(i);
    assert(s[0] == entries[i]);
    assert(s.skip(1) =~= entries.skip(i + 1));
}

} // verus!
