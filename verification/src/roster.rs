//! The roster of known active backends.
//!
//! Each member carries a signed routing priority. The roster caches the
//! maximum priority over its members; the cache is recomputed lazily when
//! an upgrade or downgrade crosses it, and the value read through
//! `max_priority` is clamped to `[-MAX_PRIORITY, MAX_PRIORITY]` so that it
//! can safely serve as an exponent in the dynamic refresh interval.

use vstd::prelude::*;

use crate::location::ObServerAddr;

verus! {

/// Bound to which the cached maximum priority is clamped when read.
pub const MAX_PRIORITY: i64 = 50;

/// All fields of two addresses agree.
pub open spec fn spec_addr_eq(a: ObServerAddr, b: ObServerAddr) -> bool {
    &&& a.ip@ == b.ip@
    &&& a.svr_port == b.svr_port
    &&& a.sql_port == b.sql_port
    &&& a.priority == b.priority
}

/// The maximum priority over a sequence of members, starting from
/// `i64::MIN` for the empty sequence.
pub open spec fn spec_members_max_priority(ms: Seq<ObServerAddr>) -> int
    decreases ms.len(),
{
    if ms.len() == 0 {
        i64::MIN as int
    } else {
        let rest = spec_members_max_priority(ms.drop_last());
        if ms.last().priority > rest {
            ms.last().priority as int
        } else {
            rest
        }
    }
}

/// The value the roster caches after recomputing: 0 for an empty roster,
/// otherwise the maximum member priority.
pub open spec fn spec_recomputed_max(ms: Seq<ObServerAddr>) -> int {
    if ms.len() == 0 {
        0
    } else {
        spec_members_max_priority(ms)
    }
}

/// `v` clamped to `[-MAX_PRIORITY, MAX_PRIORITY]`.
pub open spec fn spec_clamped_priority(v: i64) -> int {
    if v < -MAX_PRIORITY {
        -MAX_PRIORITY
    } else if v > MAX_PRIORITY {
        MAX_PRIORITY as int
    } else {
        v as int
    }
}

/// Relies on `rand::Rng::gen_range` over `0..len`: the result is uniformly
/// drawn from the range, so it is always below `len`. The draw is random;
/// nothing beyond the bound is promised.
#[verifier::external_body]
fn random_index(len: usize) -> (r: usize)
    requires
        len > 0,
    ensures
        r < len,
{
    let mut rng = rand::thread_rng();
    rand::Rng::gen_range(&mut rng, 0..len)
}

/// The set of known active backends with the cached maximum priority.
#[derive(Debug)]
pub struct ServerRoster {
    pub max_priority: i64,
    pub members: Vec<ObServerAddr>,
}

impl ServerRoster {
    /// An empty roster with cached maximum 0.
    pub fn new() -> (r: ServerRoster)
        ensures
            r.members@.len() == 0,
            r.max_priority == 0,
    {
        ServerRoster { max_priority: 0, members: Vec::new() }
    }

    /// Replaces the whole membership; the cached maximum returns to 0.
    pub fn reset(&mut self, members: Vec<ObServerAddr>)
        ensures
            final(self).members == members,
            final(self).max_priority == 0,
    {
        self.max_priority = 0;
        self.members = members;
    }

    /// The current membership.
    pub fn get_members(&self) -> (ms: &Vec<ObServerAddr>)
        ensures
            ms == &self.members,
    {
        &self.members
    }

    /// A uniformly chosen member, or nothing when the roster is empty.
    pub fn peek_random_server(&self) -> (r: Option<ObServerAddr>)
        ensures
            r is None <==> self.members@.len() == 0,
            r matches Some(m) ==> exists|i: int|
                0 <= i < self.members@.len() && spec_addr_eq(m, self.members@[i]),
    {
        if self.members.len() == 0 {
            None
        } else {
            let idx = random_index(self.members.len());
            let m = self.members[idx].clone();
            proof {
                assert(spec_addr_eq(m, self.members@[idx as int]));
            }
            Some(m)
        }
    }

    /// Recomputes the cached maximum from the members (0 when empty).
    fn reset_max_priority(&mut self)
        ensures
            final(self).members == old(self).members,
            final(self).max_priority == spec_recomputed_max(old(self).members@),
    {
        if self.members.len() == 0 {
            self.max_priority = 0;
            return;
        }
        let mut priority: i64 = i64::MIN;
        let mut i: usize = 0;
        while i < self.members.len()
            invariant
                i <= self.members@.len(),
                priority == spec_members_max_priority(self.members@.subrange(0, i as int)),
            decreases self.members@.len() - i,
        {
            let p = self.members[i].priority();
            proof {
                let pre = self.members@.subrange(0, i as int);
                let post = self.members@.subrange(0, i as int + 1);
                assert(post.drop_last() =~= pre);
                assert(post.last() == self.members@[i as int]);
            }
            if p > priority {
                priority = p;
            }
            i = i + 1;
        }
        proof {
            assert(self.members@.subrange(0, self.members@.len() as int) =~= self.members@);
        }
        self.max_priority = priority;
    }

    /// Raises the cached maximum: a no-op when the cache already dominates
    /// `priority`; a forced return to 0 when `priority` is 0; otherwise a
    /// recomputation over the members.
    pub fn upgrade_max_priority(&mut self, priority: i64)
        ensures
            final(self).members == old(self).members,
            old(self).max_priority >= priority ==> final(self).max_priority == old(
                self,
            ).max_priority,
            old(self).max_priority < priority && priority == 0 ==> final(self).max_priority == 0,
            old(self).max_priority < priority && priority != 0 ==> final(self).max_priority
                == spec_recomputed_max(old(self).members@),
    {
        if self.max_priority >= priority {
            return;
        }
        if priority == 0 {
            self.max_priority = 0;
            return;
        }
        self.reset_max_priority();
    }

    /// Lowers the cached maximum: a no-op when the cache is already at or
    /// below `priority`, otherwise a recomputation over the members.
    pub fn downgrade_max_priority(&mut self, priority: i64)
        ensures
            final(self).members == old(self).members,
            old(self).max_priority <= priority ==> final(self).max_priority == old(
                self,
            ).max_priority,
            old(self).max_priority > priority ==> final(self).max_priority == spec_recomputed_max(
                old(self).members@,
            ),
    {
        if self.max_priority <= priority {
            return;
        }
        self.reset_max_priority();
    }

    /// The cached maximum priority, clamped to
    /// `[-MAX_PRIORITY, MAX_PRIORITY]`. The clamp bounds the exponent of
    /// the dynamic refresh interval.
    pub fn max_priority(&self) -> (p: i64)
        ensures
            p == spec_clamped_priority(self.max_priority),
            -MAX_PRIORITY <= p <= MAX_PRIORITY,
    {
        let p = self.max_priority;
        if p < -MAX_PRIORITY {
            -MAX_PRIORITY
        } else if p > MAX_PRIORITY {
            MAX_PRIORITY
        } else {
            p
        }
    }

    /// Overwrites one member's routing priority in place.
    pub fn set_member_priority(&mut self, index: usize, priority: i64)
        requires
            index < old(self).members@.len(),
        ensures
            final(self).max_priority == old(self).max_priority,
            final(self).members@.len() == old(self).members@.len(),
            final(self).members@[index as int].ip@ == old(self).members@[index as int].ip@,
            final(self).members@[index as int].svr_port == old(self).members@[index as int].svr_port,
            final(self).members@[index as int].sql_port == old(self).members@[index as int].sql_port,
            final(self).members@[index as int].priority == priority,
            forall|j: int|
                0 <= j < old(self).members@.len() && j != index ==> final(self).members@[j] == old(
                    self,
                ).members@[j],
    {
        let ip = self.members[index].ip.clone();
        let svr_port = self.members[index].svr_port;
        let sql_port = self.members[index].sql_port;
        self.members.set(
            index,
            ObServerAddr { ip, svr_port, sql_port, priority },
        );
    }
}

} // verus!
