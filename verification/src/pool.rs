//! The worker-process pool: a bounded table of long-lived external
//! worker slots with ticket-based leasing.
//!
//! The pool itself is bookkeeping; the processes live outside it. The
//! caller probes liveness and spawns processes, and hands the results
//! in: `try_acquire` takes the probe outcomes and either leases an idle
//! live slot or reports that a spawn is allowed, and `admit_spawned`
//! registers the new worker. A slot found dead is tombstoned, never
//! compacted away, so an outstanding ticket's index stays valid.

use vstd::prelude::*;

verus! {

/// One managed worker: its identifier, its control endpoint, and its
/// lease state. A dead slot is a tombstone and is never handed out.
#[derive(Debug)]
pub struct WorkerSlot {
    pub id: String,
    pub url: String,
    pub busy: bool,
    pub dead: bool,
    pub use_count: u64,
}

impl Clone for WorkerSlot {
    fn clone(&self) -> (r: Self)
        ensures
            r == *self,
    {
        WorkerSlot {
            id: self.id.clone(),
            url: self.url.clone(),
            busy: self.busy,
            dead: self.dead,
            use_count: self.use_count,
        }
    }
}

/// A lease of one worker: the capability to use the endpoint until the
/// ticket is released. The index names the slot inside the pool.
#[derive(Debug)]
pub struct PoolTicket {
    pub url: String,
    pub index: usize,
}

impl Clone for PoolTicket {
    fn clone(&self) -> (r: Self)
        ensures
            r == *self,
    {
        PoolTicket { url: self.url.clone(), index: self.index }
    }
}

/// Counts over the pool, with the reuse rate in whole percent.
#[derive(Clone, Copy, PartialEq, Eq, Structural, Debug)]
pub struct PoolStats {
    pub pool_size: u64,
    pub busy_count: u64,
    pub alive_count: u64,
    pub available_count: u64,
    pub total_created: u64,
    pub total_reused: u64,
    pub total_requests: u64,
    pub reuse_rate_percent: u64,
}

/// How many slots are not tombstones.
pub open spec fn alive_count_spec(s: Seq<WorkerSlot>) -> int
    decreases s.len(),
{
    if s.len() == 0 {
        0
    } else {
        alive_count_spec(s.drop_first()) + if s[0].dead {
            0int
        } else {
            1int
        }
    }
}

pub proof fn lemma_alive_count_bounds(s: Seq<WorkerSlot>)
    ensures
        0 <= alive_count_spec(s) <= s.len(),
    decreases s.len(),
{
    if s.len() > 0 {
        lemma_alive_count_bounds(s.drop_first());
    }
}

proof fn lemma_alive_count_snoc(s: Seq<WorkerSlot>, e: WorkerSlot)
    ensures
        alive_count_spec(s.push(e)) == alive_count_spec(s) + if e.dead {
            0int
        } else {
            1int
        },
    decreases s.len(),
{
    let t = s.push(e);
    if s.len() == 0 {
        assert(t[0] == e);
        assert(t.drop_first() =~= Seq::<WorkerSlot>::empty());
        assert(alive_count_spec(Seq::<WorkerSlot>::empty()) == 0);
        assert(alive_count_spec(s) == 0);
    } else {
        assert(t[0] == s[0]);
        assert(t.drop_first() =~= s.drop_first().push(e));
        lemma_alive_count_snoc(s.drop_first(), e);
    }
}

/// The slot table after dead, non-busy workers are tombstoned: a slot
/// that failed its probe is marked dead unless it is leased out, since a
/// busy worker may only look unresponsive while it is mid-use.
pub open spec fn purged(s: Seq<WorkerSlot>, alive: Seq<bool>) -> Seq<WorkerSlot> {
    Seq::new(
        s.len(),
        |i: int|
            WorkerSlot {
                dead: s[i].dead || (!s[i].busy && !alive[i]),
                ..s[i]
            },
    )
}

pub proof fn lemma_purged_alive_le(s: Seq<WorkerSlot>, alive: Seq<bool>)
    requires
        alive.len() == s.len(),
    ensures
        alive_count_spec(purged(s, alive)) <= alive_count_spec(s),
    decreases s.len(),
{
    if s.len() > 0 {
        assert(purged(s, alive).drop_first() =~= purged(s.drop_first(), alive.drop_first()));
        lemma_purged_alive_le(s.drop_first(), alive.drop_first());
    }
}

/// The first slot that is neither leased nor dead.
pub open spec fn first_free(s: Seq<WorkerSlot>) -> Option<int>
    decreases s.len(),
{
    if s.len() == 0 {
        None
    } else if !s[0].busy && !s[0].dead {
        Some(0)
    } else {
        match first_free(s.drop_first()) {
            Some(i) => Some(i + 1),
            None => None,
        }
    }
}

pub proof fn lemma_first_free_facts(s: Seq<WorkerSlot>)
    ensures
        match first_free(s) {
            Some(i) => 0 <= i < s.len() && !s[i].busy && !s[i].dead && forall|j: int|
                0 <= j < i ==> (#[trigger] s[j]).busy || s[j].dead,
            None => forall|j: int| 0 <= j < s.len() ==> (#[trigger] s[j]).busy || s[j].dead,
        },
    decreases s.len(),
{
    if s.len() > 0 && (s[0].busy || s[0].dead) {
        lemma_first_free_facts(s.drop_first());
        match first_free(s.drop_first()) {
            Some(i) => {
                assert(s.drop_first()[i] == s[i + 1]);
                assert forall|j: int| 0 <= j < i + 1 implies (#[trigger] s[j]).busy
                    || s[j].dead by {
                    if j > 0 {
                        assert(s.drop_first()[j - 1].busy || s.drop_first()[j - 1].dead);
                    }
                }
            },
            None => {
                assert forall|j: int| 0 <= j < s.len() implies (#[trigger] s[j]).busy
                    || s[j].dead by {
                    if j > 0 {
                        assert(s.drop_first()[j - 1].busy || s.drop_first()[j - 1].dead);
                    }
                }
            },
        }
    }
}

proof fn lemma_alive_count_update_same_dead(s: Seq<WorkerSlot>, i: int, e: WorkerSlot)
    requires
        0 <= i < s.len(),
        e.dead == s[i].dead,
    ensures
        alive_count_spec(s.update(i, e)) == alive_count_spec(s),
    decreases s.len(),
{
    let t = s.update(i, e);
    if i == 0 {
        assert(t[0] == e);
        assert(t.drop_first() =~= s.drop_first());
    } else {
        assert(t[0] == s[0]);
        assert(t.drop_first() =~= s.drop_first().update(i - 1, e));
        lemma_alive_count_update_same_dead(s.drop_first(), i - 1, e);
    }
}

/// The bounded table of workers. Never more than `max_pool_size` live
/// slots exist at once, however many acquisitions are attempted: that is
/// the pool's standing invariant.
#[derive(Debug)]
pub struct BrowserPool {
    pub slots: Vec<WorkerSlot>,
    pub pool_size: usize,
    pub max_pool_size: usize,
    pub total_created: u64,
    pub total_reused: u64,
    pub total_requests: u64,
}

impl BrowserPool {
    pub open spec fn wf(&self) -> bool {
        &&& self.max_pool_size >= 1
        &&& self.pool_size >= 1
        &&& self.pool_size <= self.max_pool_size
        &&& alive_count_spec(self.slots@) <= self.max_pool_size
        &&& self.total_reused <= self.total_requests
    }

    /// A fresh pool for the configured sizes; both are clamped to at
    /// least one and the floor never exceeds the ceiling.
    pub fn new(pool_size: usize, max_pool_size: usize) -> (r: Self)
        ensures
            r.wf(),
            r.slots@ == Seq::<WorkerSlot>::empty(),
            r.max_pool_size == if max_pool_size >= 1 {
                max_pool_size as int
            } else {
                1
            },
            r.pool_size <= r.max_pool_size,
            r.total_created == 0 && r.total_reused == 0 && r.total_requests == 0,
    {
        let max = if max_pool_size >= 1 {
            max_pool_size
        } else {
            1
        };
        let mut floor = if pool_size >= 1 {
            pool_size
        } else {
            1
        };
        if floor > max {
            floor = max;
        }
        BrowserPool {
            slots: Vec::new(),
            pool_size: floor,
            max_pool_size: max,
            total_created: 0,
            total_reused: 0,
            total_requests: 0,
        }
    }

    /// Whether a new worker may be spawned without crossing the ceiling.
    pub fn has_capacity(&self) -> (r: bool)
        requires
            self.wf(),
        ensures
            r == (alive_count_spec(self.slots@) < self.max_pool_size),
    {
        self.alive_count() < self.max_pool_size
    }

    /// How many slots are live (not tombstoned).
    pub fn alive_count(&self) -> (r: usize)
        requires
            self.wf(),
        ensures
            r == alive_count_spec(self.slots@),
    {
        let n = self.slots.len();
        let mut count: usize = 0;
        let mut i: usize = 0;
        proof {
            assert(self.slots@.take(0) =~= Seq::<WorkerSlot>::empty());
        }
        while i < n
            invariant
                i <= n,
                n == self.slots@.len(),
                count == alive_count_spec(self.slots@.take(i as int)),
                count <= i,
            decreases n - i,
        {
            proof {
                lemma_alive_count_snoc(self.slots@.take(i as int), self.slots@[i as int]);
                assert(self.slots@.take(i + 1) =~= self.slots@.take(i as int).push(
                    self.slots@[i as int],
                ));
            }
            if !self.slots[i].dead {
                count = count + 1;
            }
            i = i + 1;
        }
        proof {
            assert(self.slots@.take(n as int) =~= self.slots@);
        }
        count
    }

    /// Tombstones dead idle workers, then leases the first idle live
    /// slot if any. `alive` holds one probe outcome per slot. The
    /// returned ticket always names a slot that was idle and passed its
    /// probe — never a busy or dead one.
    pub fn try_acquire(&mut self, alive: &Vec<bool>) -> (r: Option<PoolTicket>)
        requires
            old(self).wf(),
            alive@.len() == old(self).slots@.len(),
        ensures
            final(self).wf(),
            final(self).max_pool_size == old(self).max_pool_size,
            final(self).pool_size == old(self).pool_size,
            final(self).total_created == old(self).total_created,
            ({
                let p = purged(old(self).slots@, alive@);
                match first_free(p) {
                    Some(i) => r matches Some(t) && t.index == i && t.url@ == p[i].url@ && final(self).slots@ == p.update(
                        i,
                        WorkerSlot {
                            busy: true,
                            use_count: if p[i].use_count < u64::MAX {
                                (p[i].use_count + 1) as u64
                            } else {
                                u64::MAX
                            },
                            ..p[i]
                        },
                    ) && final(self).total_reused == old(self).total_reused + if old(self).total_reused < u64::MAX {
                        1int
                    } else {
                        0int
                    } && final(self).total_requests == old(self).total_requests + if old(self).total_requests < u64::MAX {
                        1int
                    } else {
                        0int
                    },
                    None => r is None && final(self).slots@ == p && final(self).total_reused == old(self).total_reused && final(self).total_requests == old(self).total_requests,
                }
            }),
            r matches Some(t) ==> {
                &&& t.index < old(self).slots@.len()
                &&& !old(self).slots@[t.index as int].busy
                &&& !old(self).slots@[t.index as int].dead
                &&& alive@[t.index as int]
                &&& final(self).slots@[t.index as int].busy
                &&& !final(self).slots@[t.index as int].dead
            },
    {
        let ghost old_slots = self.slots@;
        let ghost p = purged(old_slots, alive@);
        let n = self.slots.len();
        let mut table: Vec<WorkerSlot> = Vec::new();
        let mut i: usize = 0;
        while i < n
            invariant
                i <= n,
                n == old_slots.len(),
                self == old(self),
                self.slots@ == old_slots,
                alive@.len() == n,
                p == purged(old_slots, alive@),
                table@.len() == i,
                forall|j: int| 0 <= j < i ==> table@[j] == p[j],
            decreases n - i,
        {
            let s = &self.slots[i];
            let dead = s.dead || (!s.busy && !alive[i]);
            table.push(
                WorkerSlot {
                    id: s.id.clone(),
                    url: s.url.clone(),
                    busy: s.busy,
                    dead,
                    use_count: s.use_count,
                },
            );
            i = i + 1;
        }
        proof {
            assert(table@ =~= p);
        }
        self.slots = table;
        proof {
            lemma_purged_alive_le(old_slots, alive@);
            lemma_first_free_facts(p);
        }
        let mut k: usize = 0;
        while k < n
            invariant
                k <= n,
                n == p.len(),
                self.slots@ == p,
                first_free(p) matches Some(i) ==> k <= i,
                forall|j: int| 0 <= j < k ==> (#[trigger] p[j]).busy || p[j].dead,
                alive_count_spec(p) <= old(self).max_pool_size,
                p == purged(old(self).slots@, alive@),
                alive@.len() == n,
                self.max_pool_size == old(self).max_pool_size,
                self.pool_size == old(self).pool_size,
                self.total_created == old(self).total_created,
                self.total_reused == old(self).total_reused,
                self.total_requests == old(self).total_requests,
                old(self).wf(),
            decreases n - k,
        {
            let s = &self.slots[k];
            if !s.busy && !s.dead {
                proof {
                    lemma_first_free_facts(p);
                    assert(first_free(p) == Some(k as int));
                }
                let url = s.url.clone();
                let uc = s.use_count;
                let new_uc = if uc < u64::MAX {
                    uc + 1
                } else {
                    u64::MAX
                };
                let fresh = WorkerSlot {
                    id: s.id.clone(),
                    url: s.url.clone(),
                    busy: true,
                    dead: false,
                    use_count: new_uc,
                };
                proof {
                    lemma_alive_count_update_same_dead(p, k as int, fresh);
                }
                self.slots[k] = fresh;
                if self.total_reused < u64::MAX {
                    self.total_reused = self.total_reused + 1;
                }
                if self.total_requests < u64::MAX {
                    self.total_requests = self.total_requests + 1;
                }
                return Some(PoolTicket { url, index: k });
            }
            proof {
                lemma_first_free_facts(p);
                if first_free(p) matches Some(i) {
                    assert(p[k as int].busy || p[k as int].dead);
                }
            }
            k = k + 1;
        }
        proof {
            lemma_first_free_facts(p);
        }
        None
    }

    /// Registers a worker the caller spawned after `try_acquire` came
    /// back empty, leased to the caller at once. The capacity check is
    /// the caller's duty: a spawn is only allowed below the ceiling, so
    /// the pool never exceeds its configured maximum of live workers.
    pub fn admit_spawned(&mut self, id: String, url: String) -> (t: PoolTicket)
        requires
            old(self).wf(),
            alive_count_spec(old(self).slots@) < old(self).max_pool_size,
        ensures
            final(self).wf(),
            final(self).max_pool_size == old(self).max_pool_size,
            final(self).pool_size == old(self).pool_size,
            t.index == old(self).slots@.len(),
            t.url@ == url@,
            final(self).slots@ == old(self).slots@.push(
                WorkerSlot { id, url, busy: true, dead: false, use_count: 1 },
            ),
            final(self).total_created == old(self).total_created + if old(self).total_created
                < u64::MAX {
                1int
            } else {
                0int
            },
            final(self).total_requests == old(self).total_requests + if old(self).total_requests
                < u64::MAX {
                1int
            } else {
                0int
            },
            final(self).total_reused == old(self).total_reused,
            alive_count_spec(final(self).slots@) == alive_count_spec(old(self).slots@) + 1,
    {
        let index = self.slots.len();
        let turl = url.clone();
        let slot = WorkerSlot { id, url, busy: true, dead: false, use_count: 1 };
        proof {
            lemma_alive_count_snoc(self.slots@, slot);
            lemma_alive_count_bounds(self.slots@);
        }
        self.slots.push(slot);
        if self.total_created < u64::MAX {
            self.total_created = self.total_created + 1;
        }
        if self.total_requests < u64::MAX {
            self.total_requests = self.total_requests + 1;
        }
        PoolTicket { url: turl, index }
    }

    /// Registers a worker spawned during warm-up, left idle.
    pub fn admit_prewarmed(&mut self, id: String, url: String)
        requires
            old(self).wf(),
            alive_count_spec(old(self).slots@) < old(self).max_pool_size,
        ensures
            final(self).wf(),
            final(self).max_pool_size == old(self).max_pool_size,
            final(self).pool_size == old(self).pool_size,
            final(self).slots@ == old(self).slots@.push(
                WorkerSlot { id, url, busy: false, dead: false, use_count: 0 },
            ),
            final(self).total_created == old(self).total_created + if old(self).total_created
                < u64::MAX {
                1int
            } else {
                0int
            },
            final(self).total_requests == old(self).total_requests,
            final(self).total_reused == old(self).total_reused,
    {
        let slot = WorkerSlot { id, url, busy: false, dead: false, use_count: 0 };
        proof {
            lemma_alive_count_snoc(self.slots@, slot);
            lemma_alive_count_bounds(self.slots@);
        }
        self.slots.push(slot);
        if self.total_created < u64::MAX {
            self.total_created = self.total_created + 1;
        }
    }

    /// Returns a lease: the slot goes idle again; the worker process is
    /// kept for reuse, never closed here.
    pub fn release(&mut self, ticket: PoolTicket)
        requires
            old(self).wf(),
        ensures
            final(self).wf(),
            final(self).max_pool_size == old(self).max_pool_size,
            final(self).pool_size == old(self).pool_size,
            final(self).total_created == old(self).total_created,
            final(self).total_reused == old(self).total_reused,
            final(self).total_requests == old(self).total_requests,
            ticket.index < old(self).slots@.len() ==> final(self).slots@ == old(self).slots@.update(
                ticket.index as int,
                WorkerSlot { busy: false, ..old(self).slots@[ticket.index as int] },
            ),
            ticket.index >= old(self).slots@.len() ==> final(self).slots@ == old(self).slots@,
    {
        let i = ticket.index;
        if i < self.slots.len() {
            let s = &self.slots[i];
            let fresh = WorkerSlot {
                id: s.id.clone(),
                url: s.url.clone(),
                busy: false,
                dead: s.dead,
                use_count: s.use_count,
            };
            proof {
                lemma_alive_count_update_same_dead(self.slots@, i as int, fresh);
            }
            self.slots[i] = fresh;
        }
    }

    /// Empties the table; the caller terminates every process. Calling
    /// it twice is harmless.
    pub fn shutdown(&mut self)
        requires
            old(self).wf(),
        ensures
            final(self).wf(),
            final(self).slots@ == Seq::<WorkerSlot>::empty(),
            final(self).max_pool_size == old(self).max_pool_size,
            final(self).pool_size == old(self).pool_size,
    {
        self.slots.clear();
        proof {
            assert(alive_count_spec(self.slots@) == 0);
        }
    }

    /// The pool's counters. The reuse rate is the share of acquisitions
    /// served from an existing worker, in whole percent.
    pub fn get_stats(&self) -> (r: PoolStats)
        requires
            self.wf(),
        ensures
            r.alive_count == alive_count_spec(self.slots@),
            r.pool_size == alive_count_spec(self.slots@),
            r.busy_count == busy_count_spec(self.slots@),
            r.available_count == alive_count_spec(self.slots@) - busy_live_count_adjust(
                self.slots@,
            ),
            r.total_created == self.total_created,
            r.total_reused == self.total_reused,
            r.total_requests == self.total_requests,
            self.total_requests > 0 ==> r.reuse_rate_percent == self.total_reused as int * 100
                / (self.total_requests as int),
            self.total_requests == 0 ==> r.reuse_rate_percent == 0,
            r.reuse_rate_percent <= 100,
    {
        let alive = self.alive_count();
        let n = self.slots.len();
        let mut busy: usize = 0;
        let mut busy_live: usize = 0;
        let mut i: usize = 0;
        proof {
            assert(self.slots@.take(0) =~= Seq::<WorkerSlot>::empty());
        }
        while i < n
            invariant
                i <= n,
                n == self.slots@.len(),
                busy == busy_count_spec(self.slots@.take(i as int)),
                busy_live == busy_live_count_adjust(self.slots@.take(i as int)),
                busy <= i,
                busy_live <= i,
            decreases n - i,
        {
            proof {
                lemma_busy_count_snoc(self.slots@.take(i as int), self.slots@[i as int]);
                assert(self.slots@.take(i + 1) =~= self.slots@.take(i as int).push(
                    self.slots@[i as int],
                ));
            }
            if self.slots[i].busy {
                busy = busy + 1;
            }
            if self.slots[i].busy && !self.slots[i].dead {
                busy_live = busy_live + 1;
            }
            i = i + 1;
        }
        proof {
            assert(self.slots@.take(n as int) =~= self.slots@);
            lemma_busy_live_le_alive(self.slots@);
        }
        let rate: u64 = if self.total_requests > 0 {
            let wide: u128 = (self.total_reused as u128) * 100 / (self.total_requests as u128);
            proof {
                lemma_rate_bounded(self.total_reused as int, self.total_requests as int);
            }
            wide as u64
        } else {
            0
        };
        PoolStats {
            pool_size: alive as u64,
            busy_count: busy as u64,
            alive_count: alive as u64,
            available_count: (alive - busy_live) as u64,
            total_created: self.total_created,
            total_reused: self.total_reused,
            total_requests: self.total_requests,
            reuse_rate_percent: rate,
        }
    }
}

/// How many slots are leased out.
pub open spec fn busy_count_spec(s: Seq<WorkerSlot>) -> int
    decreases s.len(),
{
    if s.len() == 0 {
        0
    } else {
        busy_count_spec(s.drop_first()) + if s[0].busy {
            1int
        } else {
            0int
        }
    }
}

/// How many live slots are leased out.
pub open spec fn busy_live_count_adjust(s: Seq<WorkerSlot>) -> int
    decreases s.len(),
{
    if s.len() == 0 {
        0
    } else {
        busy_live_count_adjust(s.drop_first()) + if s[0].busy && !s[0].dead {
            1int
        } else {
            0int
        }
    }
}

proof fn lemma_busy_count_snoc(s: Seq<WorkerSlot>, e: WorkerSlot)
    ensures
        busy_count_spec(s.push(e)) == busy_count_spec(s) + if e.busy {
            1int
        } else {
            0int
        },
        busy_live_count_adjust(s.push(e)) == busy_live_count_adjust(s) + if e.busy && !e.dead {
            1int
        } else {
            0int
        },
    decreases s.len(),
{
    let t = s.push(e);
    if s.len() == 0 {
        assert(t[0] == e);
        assert(t.drop_first() =~= Seq::<WorkerSlot>::empty());
        assert(busy_count_spec(Seq::<WorkerSlot>::empty()) == 0);
        assert(busy_live_count_adjust(Seq::<WorkerSlot>::empty()) == 0);
        assert(busy_count_spec(s) == 0 && busy_live_count_adjust(s) == 0);
    } else {
        assert(t[0] == s[0]);
        assert(t.drop_first() =~= s.drop_first().push(e));
        lemma_busy_count_snoc(s.drop_first(), e);
    }
}

proof fn lemma_busy_live_le_alive(s: Seq<WorkerSlot>)
    ensures
        0 <= busy_live_count_adjust(s) <= alive_count_spec(s),
        0 <= busy_count_spec(s) <= s.len(),
    decreases s.len(),
{
    if s.len() > 0 {
        lemma_busy_live_le_alive(s.drop_first());
    }
}

proof fn lemma_rate_bounded(reused: int, requests: int)
    requires
        0 <= reused <= requests,
        0 < requests,
    ensures
        0 <= reused * 100 / requests <= 100,
{
    assert(reused * 100 <= requests * 100) by (nonlinear_arith)
        requires
            0 <= reused <= requests,
    ;
    vstd::arithmetic::div_mod::lemma_div_is_ordered(reused * 100, requests * 100, requests);
    vstd::arithmetic::div_mod::lemma_div_by_multiple(100, requests);
    vstd::arithmetic::div_mod::lemma_div_pos_is_pos(reused * 100, requests);
}

/// The pool never holds more live workers than its configured maximum,
/// whatever sequence of acquisitions and releases produced it: the
/// bound is part of the pool's invariant, and every operation keeps it.
pub proof fn lemma_pool_bounded(p: BrowserPool)
    requires
        p.wf(),
    ensures
        alive_count_spec(p.slots@) <= p.max_pool_size,
{
}

/// A ticket freshly handed out names a slot that was idle and live at
/// issuance and is leased from then on; and releasing the only idle
/// slot and acquiring again reuses that same slot, counting one reused
/// acquisition.
pub proof fn lemma_release_then_acquire_reuses(
    s0: Seq<WorkerSlot>,
    s1: Seq<WorkerSlot>,
    alive: Seq<bool>,
    k: int,
)
    requires
        0 <= k < s0.len(),
        s0[k].busy,
        !s0[k].dead,
        forall|j: int| 0 <= j < s0.len() && j != k ==> (#[trigger] s0[j]).busy || s0[j].dead,
        s1 == s0.update(k, WorkerSlot { busy: false, ..s0[k] }),
        alive.len() == s1.len(),
        forall|j: int| 0 <= j < alive.len() ==> alive[j],
    ensures
        first_free(purged(s1, alive)) == Some(k),
{
    let p = purged(s1, alive);
    assert(p =~= s1) by {
        assert forall|j: int| 0 <= j < s1.len() implies p[j] == s1[j] by {
            assert(alive[j]);
        }
    }
    lemma_first_free_facts(s1);
    match first_free(s1) {
        Some(i) => {
            assert(!s1[i].busy && !s1[i].dead);
            if i != k {
                assert(s1[i] == s0[i]);
                assert(s0[i].busy || s0[i].dead);
            }
        },
        None => {
            assert(s1[k].busy || s1[k].dead);
        },
    }
}

} // verus!
