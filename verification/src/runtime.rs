//! The Logic runtime's bookkeeping: its configuration, the global call and
//! payload admission, the dirty-player admission, the per-player mailboxes
//! that keep one player's calls strictly serial, and the shutdown decisions.
//!
//! The runtime itself (loading players, running the business logic, saving)
//! is asynchronous work done by its caller; every decision about admitting,
//! queueing, running the next call and retiring a player is taken here.

use std::collections::HashMap;
use std::collections::VecDeque;
use std::sync::Arc;
use vstd::prelude::*;
use vstd::std_specs::iter::IteratorSpec;

verus! {

broadcast use vstd::std_specs::hash::group_hash_axioms;

// ---------------------------------------------------------------------------
// Outcomes
// ---------------------------------------------------------------------------

/// The lifecycle of a runtime: it accepts calls while running, refuses new
/// ones while draining, and is stopped once everything was saved.
#[derive(Clone, Copy, Debug, PartialEq, Eq, Structural)]
pub enum RuntimeState {
    Running,
    Draining,
    Stopped,
}

/// Why a call was refused before it was queued.
#[derive(Clone, Copy, Debug, PartialEq, Eq, Structural)]
pub enum RejectReason {
    Calls,
    KiB,
    Gid,
    Draining,
}

/// Why an accepted call did not run its business logic, or ran it without a result.
#[derive(Debug)]
pub enum LogicCallError<E> {
    Load(Arc<E>),
    Preload(Arc<E>),
    Persistence(Arc<E>),
    DirtyCapacity,
    RuntimeStopped,
}

/// Why a shutdown did not reach the stopped state.
#[derive(Debug)]
pub enum ShutdownError<E> {
    Persistence(Arc<E>),
    DirtyPlayers(u64),
}

/// A call that ran: the business value, and the outcome of saving the player
/// afterwards, which does not undo the value.
#[derive(Debug)]
pub struct Completed<R, E> {
    pub value: R,
    pub persistence: Result<(), Arc<E>>,
}

// ---------------------------------------------------------------------------
// Configuration
// ---------------------------------------------------------------------------

/// The largest call count that the admission counter can hold.
pub const ADMISSION_COUNT_MASK: u64 = 0x7fff_ffff_ffff_ffff;

pub open spec fn is_power_of_two(n: int) -> bool
    decreases n,
{
    if n <= 0 {
        false
    } else if n == 1 {
        true
    } else {
        n % 2 == 0 && is_power_of_two(n / 2)
    }
}

pub fn power_of_two(n: usize) -> (r: bool)
    ensures
        r == is_power_of_two(n as int),
{
    if n == 0 {
        return false;
    }
    let mut x = n;
    while x > 1 && x % 2 == 0
        invariant
            x > 0,
            is_power_of_two(n as int) == is_power_of_two(x as int),
        decreases x,
    {
        x = x / 2;
    }
    x == 1
}

/// Capacity of one Logic runtime. Durations are milliseconds.
#[derive(Clone, Copy, Debug, Eq, PartialEq)]
pub struct LogicConfig {
    pub resident_capacity: usize,
    pub ttl: u64,
    pub shards: usize,
    pub batch_save_count: usize,
    pub max_dirty_players: usize,
    pub max_inflight_calls: usize,
    pub max_inflight_kib: usize,
    pub max_calls_per_gid: usize,
    pub max_kib_per_gid: usize,
}

/// The first rule a [`LogicConfig`] breaks.
#[derive(Clone, Copy, Debug, Eq, PartialEq)]
pub enum LogicConfigError {
    ResidentCapacity,
    Ttl,
    Shards,
    BatchSaveCount,
    MaxDirtyPlayers,
    MaxInflightCalls,
    MaxInflightKib,
    MaxCallsPerGid,
    MaxKibPerGid,
}

impl LogicConfig {
    /// The capacity every Logic process runs with.
    pub fn hard_limits() -> (c: Self)
        ensures
            c == (LogicConfig {
                resident_capacity: 100_000,
                ttl: 86_400_000,
                shards: 128,
                batch_save_count: 1_000,
                max_dirty_players: 100_000,
                max_inflight_calls: 100_000,
                max_inflight_kib: 262_144,
                max_calls_per_gid: 64,
                max_kib_per_gid: 1_024,
            }),
    {
        LogicConfig {
            resident_capacity: 100_000,
            ttl: 86_400_000,
            shards: 128,
            batch_save_count: 1_000,
            max_dirty_players: 100_000,
            max_inflight_calls: 100_000,
            max_inflight_kib: 262_144,
            max_calls_per_gid: 64,
            max_kib_per_gid: 1_024,
        }
    }

    pub open spec fn first_error(self) -> Option<LogicConfigError> {
        if self.resident_capacity == 0 {
            Some(LogicConfigError::ResidentCapacity)
        } else if self.ttl == 0 {
            Some(LogicConfigError::Ttl)
        } else if !is_power_of_two(self.shards as int) {
            Some(LogicConfigError::Shards)
        } else if self.batch_save_count == 0 {
            Some(LogicConfigError::BatchSaveCount)
        } else if self.max_dirty_players == 0 {
            Some(LogicConfigError::MaxDirtyPlayers)
        } else if self.max_inflight_calls == 0 || self.max_inflight_calls > ADMISSION_COUNT_MASK {
            Some(LogicConfigError::MaxInflightCalls)
        } else if self.max_inflight_kib == 0 {
            Some(LogicConfigError::MaxInflightKib)
        } else if self.max_calls_per_gid == 0 {
            Some(LogicConfigError::MaxCallsPerGid)
        } else if self.max_kib_per_gid == 0 {
            Some(LogicConfigError::MaxKibPerGid)
        } else {
            None
        }
    }

    /// Every capacity is positive, the shard count is a power of two and the
    /// call limit fits the admission counter.
    pub open spec fn spec_valid(self) -> bool {
        self.first_error() is None
    }

    /// A configuration a Logic runtime may run with; one that breaks a rule
    /// is never handed here (see [`LogicConfig::check`]).
    pub fn validate(&self)
        requires
            self.spec_valid(),
    {
    }

    /// Checks the configuration; an invalid one names the first broken rule.
    pub fn check(&self) -> (r: Result<(), LogicConfigError>)
        ensures
            r is Ok <==> self.spec_valid(),
            r matches Err(e) ==> self.first_error() == Some(e),
    {
        if self.resident_capacity == 0 {
            return Err(LogicConfigError::ResidentCapacity);
        }
        if self.ttl == 0 {
            return Err(LogicConfigError::Ttl);
        }
        if !power_of_two(self.shards) {
            return Err(LogicConfigError::Shards);
        }
        if self.batch_save_count == 0 {
            return Err(LogicConfigError::BatchSaveCount);
        }
        if self.max_dirty_players == 0 {
            return Err(LogicConfigError::MaxDirtyPlayers);
        }
        if self.max_inflight_calls == 0 || self.max_inflight_calls as u64 > ADMISSION_COUNT_MASK {
            return Err(LogicConfigError::MaxInflightCalls);
        }
        if self.max_inflight_kib == 0 {
            return Err(LogicConfigError::MaxInflightKib);
        }
        if self.max_calls_per_gid == 0 {
            return Err(LogicConfigError::MaxCallsPerGid);
        }
        if self.max_kib_per_gid == 0 {
            return Err(LogicConfigError::MaxKibPerGid);
        }
        Ok(())
    }
}

// ---------------------------------------------------------------------------
// Small helpers
// ---------------------------------------------------------------------------

/// The configuration a Logic process runs with: the hard limits.
pub fn logic_config() -> (c: LogicConfig)
    ensures
        c == (LogicConfig {
            resident_capacity: 100_000,
            ttl: 86_400_000,
            shards: 128,
            batch_save_count: 1_000,
            max_dirty_players: 100_000,
            max_inflight_calls: 100_000,
            max_inflight_kib: 262_144,
            max_calls_per_gid: 64,
            max_kib_per_gid: 1_024,
        }),
{
    LogicConfig::hard_limits()
}

/// Raises a high-water mark to `value` when `value` is higher.
pub fn update_high_water(high_water: &mut u64, value: u64)
    ensures
        *final(high_water) == if value > *old(high_water) {
            value
        } else {
            *old(high_water)
        },
{
    if value > *high_water {
        *high_water = value;
    }
}

pub open spec fn spec_mix_i64(value: i64) -> u64 {
    let v0 = value as u64;
    let v1 = vstd::wrapping::u64_specs::wrapping_mul(v0 ^ (v0 >> 30u64), 0xbf58_476d_1ce4_e5b9u64);
    let v2 = vstd::wrapping::u64_specs::wrapping_mul(v1 ^ (v1 >> 27u64), 0x94d0_49bb_1331_11ebu64);
    v2 ^ (v2 >> 31u64)
}

/// The splitmix64 finaliser of a player id; it spreads neighbouring ids over
/// the directory shards.
pub fn mix_i64(value: i64) -> (r: u64)
    ensures
        r == spec_mix_i64(value),
{
    let mut v = value as u64;
    v = (v ^ (v >> 30u64)).wrapping_mul(0xbf58_476d_1ce4_e5b9u64);
    v = (v ^ (v >> 27u64)).wrapping_mul(0x94d0_49bb_1331_11ebu64);
    v ^ (v >> 31u64)
}

/// The directory shard of a player id, for a shard count of `mask + 1`.
pub fn directory_index(gid: i64, mask: usize) -> (r: usize)
    ensures
        r <= mask,
        r == ((spec_mix_i64(gid) as usize) & mask),
{
    let hash = mix_i64(gid) as usize;
    let r = hash & mask;
    assert(r <= mask) by (bit_vector)
        requires
            r == hash & mask,
    ;
    r
}

// ---------------------------------------------------------------------------
// Sums over the players that have a mailbox
// ---------------------------------------------------------------------------

/// The sum of `g` over a finite set of player ids.
pub open spec fn sum_over(s: Set<i64>, g: spec_fn(i64) -> nat) -> nat
    decreases s.len(),
{
    if s.finite() && s.len() > 0 {
        let k = s.choose();
        g(k) + sum_over(s.remove(k), g)
    } else {
        0
    }
}

pub proof fn lemma_sum_remove(s: Set<i64>, g: spec_fn(i64) -> nat, a: i64)
    requires
        s.finite(),
        s.contains(a),
    ensures
        sum_over(s, g) == g(a) + sum_over(s.remove(a), g),
    decreases s.len(),
{
    let k = s.choose();
    if k != a {
        lemma_sum_remove(s.remove(k), g, a);
        lemma_sum_remove(s.remove(a), g, k);
        assert(s.remove(k).remove(a) =~= s.remove(a).remove(k));
    }
}

pub proof fn lemma_sum_insert(s: Set<i64>, g: spec_fn(i64) -> nat, a: i64)
    requires
        s.finite(),
        !s.contains(a),
    ensures
        sum_over(s.insert(a), g) == g(a) + sum_over(s, g),
{
    lemma_sum_remove(s.insert(a), g, a);
    assert(s.insert(a).remove(a) =~= s);
}

pub proof fn lemma_sum_congruent(s: Set<i64>, g1: spec_fn(i64) -> nat, g2: spec_fn(i64) -> nat)
    requires
        s.finite(),
        forall|x: i64| s.contains(x) ==> g1(x) == g2(x),
    ensures
        sum_over(s, g1) == sum_over(s, g2),
    decreases s.len(),
{
    if s.len() > 0 {
        let k = s.choose();
        lemma_sum_congruent(s.remove(k), g1, g2);
    }
}

/// Changing `g` at one member `a` of `s` changes the sum by the difference at `a`.
pub proof fn lemma_sum_update(s: Set<i64>, g1: spec_fn(i64) -> nat, g2: spec_fn(i64) -> nat, a: i64)
    requires
        s.finite(),
        s.contains(a),
        forall|x: i64| s.contains(x) && x != a ==> g1(x) == g2(x),
    ensures
        sum_over(s, g2) + g1(a) == sum_over(s, g1) + g2(a),
{
    lemma_sum_remove(s, g1, a);
    lemma_sum_remove(s, g2, a);
    lemma_sum_congruent(s.remove(a), g1, g2);
}

// ---------------------------------------------------------------------------
// Global admission
// ---------------------------------------------------------------------------

/// Global admission of calls: at most `max_calls` calls in flight, carrying
/// at most `max_kib` KiB of retained payload, and none once closed.
pub struct Admission {
    pub calls: u64,
    pub kib: u64,
    pub max_calls: u64,
    pub max_kib: u64,
    pub closed: bool,
}

impl Admission {
    pub fn new(config: &LogicConfig) -> (r: Self)
        ensures
            r == (Admission {
                calls: 0,
                kib: 0,
                max_calls: config.max_inflight_calls as u64,
                max_kib: config.max_inflight_kib as u64,
                closed: false,
            }),
    {
        Admission {
            calls: 0,
            kib: 0,
            max_calls: config.max_inflight_calls as u64,
            max_kib: config.max_inflight_kib as u64,
            closed: false,
        }
    }

    /// Admits a call that retains `retained_kib` KiB: refused while closed,
    /// when `max_calls` calls are in flight, or when the KiB would pass
    /// `max_kib`. A refusal counts in the matching rejection counter; an
    /// admission raises the in-flight high-water marks.
    pub fn acquire(&mut self, retained_kib: u64, counters: &mut RuntimeCounters) -> (r: Result<(), RejectReason>)
        ensures
            *final(counters) == (match r {
                Err(RejectReason::Draining) => RuntimeCounters {
                    rejected_draining: bump(old(counters).rejected_draining),
                    ..*old(counters)
                },
                Err(RejectReason::Calls) => RuntimeCounters {
                    rejected_calls: bump(old(counters).rejected_calls),
                    ..*old(counters)
                },
                Err(RejectReason::KiB) => RuntimeCounters {
                    rejected_kib: bump(old(counters).rejected_kib),
                    ..*old(counters)
                },
                Err(RejectReason::Gid) => *old(counters),
                Ok(_) => RuntimeCounters {
                    inflight_calls_high_water: spec_max(
                        old(counters).inflight_calls_high_water,
                        (old(self).calls + 1) as u64,
                    ),
                    inflight_kib_high_water: spec_max(
                        old(counters).inflight_kib_high_water,
                        (old(self).kib + retained_kib) as u64,
                    ),
                    ..*old(counters)
                },
            }),
            old(self).closed ==> r == Err::<(), RejectReason>(RejectReason::Draining),
            !old(self).closed && old(self).calls >= old(self).max_calls ==> r == Err::<(), RejectReason>(
                RejectReason::Calls,
            ),
            !old(self).closed && old(self).calls < old(self).max_calls && old(self).kib + retained_kib
                > old(self).max_kib ==> r == Err::<(), RejectReason>(RejectReason::KiB),
            !old(self).closed && old(self).calls < old(self).max_calls && old(self).kib + retained_kib
                <= old(self).max_kib ==> r is Ok,
            r is Err ==> *final(self) == *old(self),
            r is Ok ==> *final(self) == (Admission {
                calls: (old(self).calls + 1) as u64,
                kib: (old(self).kib + retained_kib) as u64,
                ..*old(self)
            }),
    {
        if self.closed {
            counters.rejected_draining = counters.rejected_draining.wrapping_add(1);
            return Err(RejectReason::Draining);
        }
        if self.calls >= self.max_calls {
            counters.rejected_calls = counters.rejected_calls.wrapping_add(1);
            return Err(RejectReason::Calls);
        }
        match self.kib.checked_add(retained_kib) {
            Some(next) => {
                if next > self.max_kib {
                    counters.rejected_kib = counters.rejected_kib.wrapping_add(1);
                    return Err(RejectReason::KiB);
                }
                self.calls = self.calls + 1;
                self.kib = next;
                let calls = self.calls;
                update_high_water(&mut counters.inflight_calls_high_water, calls);
                update_high_water(&mut counters.inflight_kib_high_water, next);
                Ok(())
            },
            None => {
                counters.rejected_kib = counters.rejected_kib.wrapping_add(1);
                Err(RejectReason::KiB)
            },
        }
    }

    /// A call that held `retained_kib` KiB finished.
    pub fn release(&mut self, retained_kib: u64)
        requires
            old(self).calls > 0,
            old(self).kib >= retained_kib,
        ensures
            *final(self) == (Admission {
                calls: (old(self).calls - 1) as u64,
                kib: (old(self).kib - retained_kib) as u64,
                ..*old(self)
            }),
    {
        self.calls = self.calls - 1;
        self.kib = self.kib - retained_kib;
    }

    /// Stops admitting calls; those in flight are unaffected.
    pub fn close(&mut self)
        ensures
            *final(self) == (Admission { closed: true, ..*old(self) }),
    {
        self.closed = true;
    }

    pub fn inflight_calls(&self) -> (r: u64)
        ensures
            r == self.calls,
    {
        self.calls
    }
}

// ---------------------------------------------------------------------------
// Dirty-player admission
// ---------------------------------------------------------------------------

/// At most `max` players may hold unsaved changes at once; each holds one slot.
pub struct DirtyAdmission {
    pub slots: u64,
    pub max: u64,
}

/// A reserved dirty slot, taken before a clean player may become dirty.
pub struct DirtyPermit {
    pub active: bool,
}

impl DirtyPermit {
    /// The player did become dirty: the slot stays taken by it.
    pub fn commit(self) -> (r: Self)
        ensures
            !r.active,
    {
        DirtyPermit { active: false }
    }
}

/// Whether one resident player holds a dirty slot. A player takes a slot
/// before it may turn dirty, keeps it while dirty, and gives it back once a
/// save leaves it clean.
#[derive(Clone, Copy, Debug, PartialEq, Eq, Structural)]
pub struct DirtySlot {
    pub held: bool,
}

impl DirtySlot {
    /// After a call ran, with `reserved` telling whether a slot was reserved
    /// for it (only a player without one reserves): the player holds a slot
    /// exactly when it is dirty. Answers how many slots go back to the
    /// runtime: an unused reservation, or the slot of a player that turned
    /// clean.
    pub fn finish_logic(&mut self, dirty: bool, reserved: bool) -> (releases: u8)
        requires
            reserved ==> !old(self).held,
            dirty && !old(self).held ==> reserved,
        ensures
            final(self).held == dirty,
            releases == (if !dirty && (reserved || old(self).held) {
                1u8
            } else {
                0u8
            }),
            (old(self).held as int) + (reserved as int) - releases == (final(self).held as int),
    {
        let releases: u8 = if !dirty && (reserved || self.held) {
            1
        } else {
            0
        };
        self.held = dirty;
        releases
    }

    /// After a save: a player that is clean gives its slot back (`true`); a
    /// dirty one keeps it.
    pub fn refresh_dirty(&mut self, dirty: bool) -> (release: bool)
        requires
            dirty ==> old(self).held,
        ensures
            final(self).held == dirty,
            release == (old(self).held && !dirty),
    {
        let release = self.held && !dirty;
        self.held = dirty;
        release
    }
}

impl DirtyAdmission {
    pub fn new(max: usize) -> (r: Self)
        ensures
            r == (DirtyAdmission { slots: 0, max: max as u64 }),
    {
        DirtyAdmission { slots: 0, max: max as u64 }
    }

    /// Reserves a slot unless all `max` are taken; a reservation raises the
    /// dirty-slot high-water mark.
    pub fn acquire(&mut self, counters: &mut RuntimeCounters) -> (r: Option<DirtyPermit>)
        ensures
            old(self).slots < old(self).max ==> r == Some(DirtyPermit { active: true })
                && final(self).slots == old(self).slots + 1 && *final(counters) == (RuntimeCounters {
                dirty_slots_high_water: spec_max(
                    old(counters).dirty_slots_high_water,
                    (old(self).slots + 1) as u64,
                ),
                ..*old(counters)
            }),
            old(self).slots >= old(self).max ==> r is None && final(self).slots == old(self).slots
                && *final(counters) == *old(counters),
            final(self).max == old(self).max,
    {
        if self.slots < self.max {
            self.slots = self.slots + 1;
            let slots = self.slots;
            update_high_water(&mut counters.dirty_slots_high_water, slots);
            Some(DirtyPermit { active: true })
        } else {
            None
        }
    }

    /// A reservation that was not committed is given back, as dropping it
    /// does; a committed one gives nothing back.
    pub fn abandon(&mut self, permit: DirtyPermit)
        requires
            permit.active ==> old(self).slots > 0,
        ensures
            final(self).slots == if permit.active {
                old(self).slots - 1
            } else {
                old(self).slots as int
            },
            final(self).max == old(self).max,
    {
        if permit.active {
            self.slots = self.slots - 1;
        }
    }

    /// A slot is given back: its player was saved, or its reservation was not used.
    pub fn release(&mut self)
        requires
            old(self).slots > 0,
        ensures
            final(self).slots == old(self).slots - 1,
            final(self).max == old(self).max,
    {
        self.slots = self.slots - 1;
    }

    pub fn slots(&self) -> (r: u64)
        ensures
            r == self.slots,
    {
        self.slots
    }
}

pub proof fn lemma_sum_le(s: Set<i64>, g1: spec_fn(i64) -> nat, g2: spec_fn(i64) -> nat)
    requires
        s.finite(),
        forall|x: i64| s.contains(x) ==> g1(x) <= g2(x),
    ensures
        sum_over(s, g1) <= sum_over(s, g2),
    decreases s.len(),
{
    if s.len() > 0 {
        let k = s.choose();
        lemma_sum_le(s.remove(k), g1, g2);
    }
}

// ---------------------------------------------------------------------------
// Mailboxes
// ---------------------------------------------------------------------------

/// One accepted call waiting in a player's mailbox, with the KiB it retains.
pub struct Envelope<T> {
    pub retained_kib: usize,
    pub payload: T,
}

/// The calls of one player: those waiting, in arrival order, and the one
/// running (by the KiB it retains), with their totals.
pub struct Mailbox<T> {
    pub queue: VecDeque<Envelope<T>>,
    pub running: Option<usize>,
    pub inflight_calls: usize,
    pub inflight_kib: usize,
}

/// KiB retained by the waiting calls.
pub open spec fn queue_kib<T>(q: Seq<Envelope<T>>) -> nat
    decreases q.len(),
{
    if q.len() == 0 {
        0
    } else {
        queue_kib(q.drop_last()) + q.last().retained_kib as nat
    }
}

proof fn lemma_queue_kib_front<T>(q: Seq<Envelope<T>>)
    requires
        q.len() > 0,
    ensures
        queue_kib(q) == q[0].retained_kib + queue_kib(q.drop_first()),
    decreases q.len(),
{
    if q.len() > 1 {
        lemma_queue_kib_front(q.drop_last());
        assert(queue_kib(q) == queue_kib(q.drop_last()) + q.last().retained_kib as nat);
        assert(q.drop_last().drop_first() =~= q.drop_first().drop_last());
        assert(q.drop_first().last() == q.last());
        assert(q.drop_last()[0] == q[0]);
        assert(queue_kib(q.drop_first()) == queue_kib(q.drop_first().drop_last())
            + q.drop_first().last().retained_kib as nat);
    } else {
        assert(q.drop_last().len() == 0);
        assert(q.drop_first().len() == 0);
        assert(q.last() == q[0]);
        assert(queue_kib(q.drop_last()) == 0);
        assert(queue_kib(q.drop_first()) == 0);
    }
}

pub open spec fn running_calls(r: Option<usize>) -> nat {
    if r is Some {
        1
    } else {
        0
    }
}

pub open spec fn running_kib(r: Option<usize>) -> nat {
    match r {
        Some(k) => k as nat,
        None => 0,
    }
}

impl<T> Mailbox<T> {
    /// The totals count the waiting and the running calls, and stay within the
    /// per-player limits.
    pub open spec fn wf(&self, config: LogicConfig) -> bool {
        &&& self.inflight_calls == self.queue@.len() + running_calls(self.running)
        &&& self.inflight_kib == queue_kib(self.queue@) + running_kib(self.running)
        &&& self.inflight_calls <= config.max_calls_per_gid
        &&& self.inflight_kib <= config.max_kib_per_gid
    }

    fn new() -> (r: Self)
        ensures
            r.queue@.len() == 0,
            r.running is None,
            r.inflight_calls == 0,
            r.inflight_kib == 0,
    {
        Mailbox { queue: VecDeque::new(), running: None, inflight_calls: 0, inflight_kib: 0 }
    }
}

pub open spec fn calls_field<T>() -> spec_fn(Mailbox<T>) -> nat {
    |m: Mailbox<T>| m.inflight_calls as nat
}

pub open spec fn kib_field<T>() -> spec_fn(Mailbox<T>) -> nat {
    |m: Mailbox<T>| m.inflight_kib as nat
}

pub open spec fn queued_field<T>() -> spec_fn(Mailbox<T>) -> nat {
    |m: Mailbox<T>| m.queue@.len()
}

/// The sum of `f` over every mailbox of `m`.
pub open spec fn field_sum<T>(m: Map<i64, Mailbox<T>>, f: spec_fn(Mailbox<T>) -> nat) -> nat {
    sum_over(m.dom(), |k: i64| f(m[k]))
}

proof fn lemma_field_sum_insert<T>(m: Map<i64, Mailbox<T>>, f: spec_fn(Mailbox<T>) -> nat, gid: i64, mb: Mailbox<T>)
    requires
        m.dom().finite(),
    ensures
        field_sum(m.insert(gid, mb), f) + (if m.contains_key(gid) {
            f(m[gid])
        } else {
            0
        }) == field_sum(m, f) + f(mb),
{
    let m2 = m.insert(gid, mb);
    let g1 = |k: i64| f(m[k]);
    let g2 = |k: i64| f(m2[k]);
    if m.contains_key(gid) {
        assert(m2.dom() =~= m.dom());
        lemma_sum_update(m.dom(), g1, g2, gid);
    } else {
        lemma_sum_insert(m.dom(), g2, gid);
        lemma_sum_congruent(m.dom(), g1, g2);
        assert(m2.dom() =~= m.dom().insert(gid));
    }
}

proof fn lemma_field_sum_remove<T>(m: Map<i64, Mailbox<T>>, f: spec_fn(Mailbox<T>) -> nat, gid: i64)
    requires
        m.dom().finite(),
        m.contains_key(gid),
    ensures
        field_sum(m.remove(gid), f) + f(m[gid]) == field_sum(m, f),
{
    let m2 = m.remove(gid);
    let g1 = |k: i64| f(m[k]);
    let g2 = |k: i64| f(m2[k]);
    lemma_sum_remove(m.dom(), g1, gid);
    lemma_sum_congruent(m.dom().remove(gid), g1, g2);
    assert(m2.dom() =~= m.dom().remove(gid));
}

// ---------------------------------------------------------------------------
// The runtime core
// ---------------------------------------------------------------------------

/// Counters of the runtime. Event counters wrap around like the atomic
/// counters they mirror.
#[derive(Clone, Copy, Debug, Default, PartialEq, Eq)]
pub struct RuntimeCounters {
    pub accepted: u64,
    pub completed: u64,
    pub queued: u64,
    pub queued_high_water: u64,
    pub active_gids_high_water: u64,
    pub inflight_calls_high_water: u64,
    pub inflight_kib_high_water: u64,
    pub dirty_slots_high_water: u64,
    pub rejected_calls: u64,
    pub rejected_kib: u64,
    pub rejected_gid: u64,
    pub rejected_dirty: u64,
    pub rejected_draining: u64,
    pub load_calls: u64,
    pub load_failed: u64,
    pub preload_calls: u64,
    pub preload_failed: u64,
    pub save_calls: u64,
    pub save_failed: u64,
}

pub open spec fn bump(c: u64) -> u64 {
    if c == u64::MAX {
        0
    } else {
        (c + 1) as u64
    }
}

pub open spec fn spec_max(a: u64, b: u64) -> u64 {
    if a > b {
        a
    } else {
        b
    }
}

/// What the saving of every resident player at shutdown came to.
pub enum FlushOutcome<E> {
    Flushed,
    Failed(Arc<E>),
}

/// A failure of the player cache, as the runtime's caller reports it.
pub enum CacheFailure<E> {
    Load(Arc<E>),
    Save(Arc<E>),
}

/// The error an accepted call completes with when its player could not be loaded or saved.
pub fn map_cache_error<E>(error: CacheFailure<E>) -> (r: LogicCallError<E>)
    ensures
        error matches CacheFailure::Load(e) ==> r matches LogicCallError::Load(x) && x == e,
        error matches CacheFailure::Save(e) ==> r matches LogicCallError::Persistence(x) && x == e,
{
    match error {
        CacheFailure::Load(e) => LogicCallError::Load(e),
        CacheFailure::Save(e) => LogicCallError::Persistence(e),
    }
}

/// The bookkeeping of one Logic runtime: admission, the per-player
/// mailboxes, dirty slots, the lifecycle state and the counters. `T` is what
/// a queued call carries for its runner.
pub struct RuntimeCore<T> {
    config: LogicConfig,
    state: RuntimeState,
    admission: Admission,
    dirty: DirtyAdmission,
    mailboxes: HashMap<i64, Mailbox<T>>,
    counters: RuntimeCounters,
}

impl<T> RuntimeCore<T> {
    pub closed spec fn spec_config(&self) -> LogicConfig {
        self.config
    }

    pub closed spec fn spec_state(&self) -> RuntimeState {
        self.state
    }

    pub closed spec fn spec_admission(&self) -> Admission {
        self.admission
    }

    pub closed spec fn spec_dirty(&self) -> DirtyAdmission {
        self.dirty
    }

    pub closed spec fn spec_counters(&self) -> RuntimeCounters {
        self.counters
    }

    /// The mailboxes, by player id: a player has one while it has calls in
    /// flight or its runner has not retired yet.
    pub closed spec fn mailboxes(&self) -> Map<i64, Mailbox<T>> {
        self.mailboxes@
    }

    /// The runtime's invariant: the configuration is valid, admission is
    /// closed exactly when the runtime no longer runs, every mailbox counts its
    /// own calls within the per-player limits, the global call, KiB and queue
    /// totals are the sums over the mailboxes and stay within the global limits.
    pub closed spec fn wf(&self) -> bool {
        &&& self.config.spec_valid()
        &&& self.admission.max_calls == self.config.max_inflight_calls
        &&& self.admission.max_kib == self.config.max_inflight_kib
        &&& self.admission.closed == (self.state != RuntimeState::Running)
        &&& self.admission.calls <= self.admission.max_calls
        &&& self.admission.kib <= self.admission.max_kib
        &&& self.dirty.max == self.config.max_dirty_players
        &&& self.dirty.slots <= self.dirty.max
        &&& self.mailboxes@.dom().finite()
        &&& forall|k: i64| #[trigger] self.mailboxes@.contains_key(k) ==> self.mailboxes@[k].wf(self.config)
        &&& self.admission.calls == field_sum(self.mailboxes@, calls_field())
        &&& self.admission.kib == field_sum(self.mailboxes@, kib_field())
        &&& self.counters.queued == field_sum(self.mailboxes@, queued_field())
        &&& self.state == RuntimeState::Stopped ==> self.admission.calls == 0
            && self.mailboxes@.dom().len() == 0
    }

    /// An idle, running runtime; the configuration must be valid.
    pub fn new(config: LogicConfig) -> (r: Self)
        requires
            config.spec_valid(),
        ensures
            r.wf(),
            r.spec_config() == config,
            r.spec_state() == RuntimeState::Running,
            r.mailboxes() == Map::<i64, Mailbox<T>>::empty(),
            r.spec_admission() == (Admission {
                calls: 0,
                kib: 0,
                max_calls: config.max_inflight_calls as u64,
                max_kib: config.max_inflight_kib as u64,
                closed: false,
            }),
            r.spec_dirty() == (DirtyAdmission { slots: 0, max: config.max_dirty_players as u64 }),
            r.spec_counters() == (RuntimeCounters {
                accepted: 0,
                completed: 0,
                queued: 0,
                queued_high_water: 0,
                active_gids_high_water: 0,
                inflight_calls_high_water: 0,
                inflight_kib_high_water: 0,
                dirty_slots_high_water: 0,
                rejected_calls: 0,
                rejected_kib: 0,
                rejected_gid: 0,
                rejected_dirty: 0,
                rejected_draining: 0,
                load_calls: 0,
                load_failed: 0,
                preload_calls: 0,
                preload_failed: 0,
                save_calls: 0,
                save_failed: 0,
            }),
    {
        let r = RuntimeCore {
            config,
            state: RuntimeState::Running,
            admission: Admission::new(&config),
            dirty: DirtyAdmission::new(config.max_dirty_players),
            mailboxes: HashMap::new(),
            counters: RuntimeCounters {
                accepted: 0,
                completed: 0,
                queued: 0,
                queued_high_water: 0,
                active_gids_high_water: 0,
                inflight_calls_high_water: 0,
                inflight_kib_high_water: 0,
                dirty_slots_high_water: 0,
                rejected_calls: 0,
                rejected_kib: 0,
                rejected_gid: 0,
                rejected_dirty: 0,
                rejected_draining: 0,
                load_calls: 0,
                load_failed: 0,
                preload_calls: 0,
                preload_failed: 0,
                save_calls: 0,
                save_failed: 0,
            },
        };
        proof {
            assert(r.mailboxes@.dom() =~= Set::<i64>::empty());
        }
        r
    }

    pub fn config(&self) -> (r: LogicConfig)
        ensures
            r == self.spec_config(),
    {
        self.config
    }

    pub fn state(&self) -> (r: RuntimeState)
        ensures
            r == self.spec_state(),
    {
        self.state
    }

    pub fn counters(&self) -> (r: RuntimeCounters)
        ensures
            r == self.spec_counters(),
    {
        self.counters
    }

    pub fn inflight_calls(&self) -> (r: u64)
        ensures
            r == self.spec_admission().calls,
    {
        self.admission.inflight_calls()
    }

    pub fn inflight_kib(&self) -> (r: u64)
        ensures
            r == self.spec_admission().kib,
    {
        self.admission.kib
    }

    pub fn dirty_slots(&self) -> (r: u64)
        ensures
            r == self.spec_dirty().slots,
    {
        self.dirty.slots()
    }

    /// The number of players that have a mailbox.
    pub fn active_gids(&self) -> (r: u64)
        ensures
            r == self.mailboxes().dom().len(),
    {
        self.mailboxes.len() as u64
    }

    /// Whether `gid` has a mailbox, and whether one of its calls is running.
    pub fn runner_state(&self, gid: i64) -> (r: Option<bool>)
        ensures
            r == (if self.mailboxes().contains_key(gid) {
                Some(self.mailboxes()[gid].running is Some)
            } else {
                None::<bool>
            }),
    {
        match self.mailboxes.get(&gid) {
            Some(m) => Some(m.running.is_some()),
            None => None,
        }
    }

    /// How many calls of `gid` are waiting behind the running one.
    pub fn waiting(&self, gid: i64) -> (r: usize)
        ensures
            r == (if self.mailboxes().contains_key(gid) {
                self.mailboxes()[gid].queue@.len()
            } else {
                0
            }),
    {
        match self.mailboxes.get(&gid) {
            Some(m) => m.queue.len(),
            None => 0,
        }
    }

    proof fn lemma_queued_le_calls(&self)
        requires
            self.wf(),
        ensures
            self.counters.queued <= self.admission.calls,
    {
        let m = self.mailboxes@;
        let g1 = |k: i64| queued_field::<T>()(m[k]);
        let g2 = |k: i64| calls_field::<T>()(m[k]);
        assert forall|x: i64| m.dom().contains(x) implies g1(x) <= g2(x) by {
            assert(m[x].wf(self.config));
        }
        lemma_sum_le(m.dom(), g1, g2);
    }

    /// What admitting a call of `gid` retaining `retained_kib` KiB comes to:
    /// `Ok(true)` when the player had no mailbox and a runner must be started.
    /// The player's own limits are checked first, then the global admission.
    pub open spec fn enqueue_decision(&self, gid: i64, retained_kib: usize) -> Result<bool, RejectReason> {
        let k = charged_kib(retained_kib);
        let m = self.mailboxes();
        let calls: int = if m.contains_key(gid) {
            m[gid].inflight_calls as int
        } else {
            0
        };
        let kib: int = if m.contains_key(gid) {
            m[gid].inflight_kib as int
        } else {
            0
        };
        let a = self.spec_admission();
        if calls >= self.spec_config().max_calls_per_gid || k > self.spec_config().max_kib_per_gid - kib {
            Err(RejectReason::Gid)
        } else if a.closed {
            Err(RejectReason::Draining)
        } else if a.calls >= a.max_calls {
            Err(RejectReason::Calls)
        } else if a.kib + k > a.max_kib {
            Err(RejectReason::KiB)
        } else {
            Ok(!m.contains_key(gid))
        }
    }

    /// Admits and queues a call of `gid` retaining `retained_kib` KiB (at least
    /// one is charged). `Ok(true)` asks the caller to start the player's runner.
    /// A refused call changes nothing but the matching rejection counter.
    pub fn enqueue(&mut self, gid: i64, retained_kib: usize, payload: T) -> (r: Result<bool, RejectReason>)
        requires
            old(self).wf(),
        ensures
            final(self).wf(),
            r == old(self).enqueue_decision(gid, retained_kib),
            final(self).spec_config() == old(self).spec_config(),
            final(self).spec_state() == old(self).spec_state(),
            final(self).spec_dirty() == old(self).spec_dirty(),
            r is Err ==> {
                &&& final(self).mailboxes() == old(self).mailboxes()
                &&& final(self).spec_admission() == old(self).spec_admission()
                &&& final(self).spec_counters() == (match r->Err_0 {
                    RejectReason::Gid => RuntimeCounters {
                        rejected_gid: bump(old(self).spec_counters().rejected_gid),
                        ..old(self).spec_counters()
                    },
                    RejectReason::Draining => RuntimeCounters {
                        rejected_draining: bump(old(self).spec_counters().rejected_draining),
                        ..old(self).spec_counters()
                    },
                    RejectReason::Calls => RuntimeCounters {
                        rejected_calls: bump(old(self).spec_counters().rejected_calls),
                        ..old(self).spec_counters()
                    },
                    RejectReason::KiB => RuntimeCounters {
                        rejected_kib: bump(old(self).spec_counters().rejected_kib),
                        ..old(self).spec_counters()
                    },
                })
            },
            r is Ok ==> {
                let k = charged_kib(retained_kib);
                let m = old(self).mailboxes();
                let n = final(self).mailboxes();
                let had = m.contains_key(gid);
                &&& n.dom() == m.dom().insert(gid)
                &&& forall|g: i64| g != gid && #[trigger] m.contains_key(g) ==> n[g] == m[g]
                &&& n[gid].queue@ == (if had {
                    m[gid].queue@
                } else {
                    Seq::empty()
                }).push(Envelope { retained_kib: k, payload })
                &&& n[gid].running == (if had {
                    m[gid].running
                } else {
                    None
                })
                &&& final(self).spec_admission() == (Admission {
                    calls: (old(self).spec_admission().calls + 1) as u64,
                    kib: (old(self).spec_admission().kib + k) as u64,
                    ..old(self).spec_admission()
                })
                &&& final(self).spec_counters() == ({
                    let c = old(self).spec_counters();
                    let a = old(self).spec_admission();
                    RuntimeCounters {
                        accepted: bump(c.accepted),
                        queued: (c.queued + 1) as u64,
                        queued_high_water: spec_max(c.queued_high_water, (c.queued + 1) as u64),
                        inflight_calls_high_water: spec_max(
                            c.inflight_calls_high_water,
                            (a.calls + 1) as u64,
                        ),
                        inflight_kib_high_water: spec_max(c.inflight_kib_high_water, (a.kib + k) as u64),
                        active_gids_high_water: if had {
                            c.active_gids_high_water
                        } else {
                            spec_max(c.active_gids_high_water, n.dom().len() as u64)
                        },
                        ..c
                    }
                })
            },
    {
        let k: usize = if retained_kib == 0 {
            1
        } else {
            retained_kib
        };
        let ghost m = self.mailboxes@;
        let existing = self.mailboxes.remove(&gid);
        let spawn = existing.is_none();
        let mut mb = match existing {
            Some(mb) => mb,
            None => Mailbox::new(),
        };
        proof {
            if !spawn {
                assert(m[gid].wf(self.config));
                assert(m.remove(gid).insert(gid, mb) =~= m);
            }
        }
        if mb.inflight_calls >= self.config.max_calls_per_gid || k > self.config.max_kib_per_gid
            - mb.inflight_kib {
            self.counters.rejected_gid = self.counters.rejected_gid.wrapping_add(1);
            if !spawn {
                self.mailboxes.insert(gid, mb);
            } else {
                assert(m.remove(gid) =~= m);
            }
            return Err(RejectReason::Gid);
        }
        let ghost a0 = self.admission;
        match self.admission.acquire(k as u64, &mut self.counters) {
            Err(e) => {
                if !spawn {
                    self.mailboxes.insert(gid, mb);
                } else {
                    assert(m.remove(gid) =~= m);
                }
                return Err(e);
            },
            Ok(()) => {},
        }
        let ghost mb0 = mb;
        mb.inflight_calls = mb.inflight_calls + 1;
        mb.inflight_kib = mb.inflight_kib + k;
        mb.queue.push_back(Envelope { retained_kib: k, payload });
        proof {
            assert(mb0.wf(self.config));
            assert(mb.queue@.drop_last() =~= mb0.queue@);
            assert(queue_kib(mb.queue@) == queue_kib(mb0.queue@) + k);
            lemma_field_sum_insert(m, calls_field::<T>(), gid, mb);
            lemma_field_sum_insert(m, kib_field::<T>(), gid, mb);
            lemma_field_sum_insert(m, queued_field::<T>(), gid, mb);
            self.lemma_queued_le_calls_of(m, a0);
        }
        self.mailboxes.insert(gid, mb);
        proof {
            assert(self.mailboxes@ =~= m.insert(gid, mb));
        }
        self.counters.queued = self.counters.queued + 1;
        self.counters.accepted = self.counters.accepted.wrapping_add(1);
        let queued = self.counters.queued;
        update_high_water(&mut self.counters.queued_high_water, queued);
        if spawn {
            let active = self.mailboxes.len() as u64;
            update_high_water(&mut self.counters.active_gids_high_water, active);
        }
        Ok(spawn)
    }

    proof fn lemma_queued_le_calls_of(&self, m: Map<i64, Mailbox<T>>, a: Admission)
        requires
            m.dom().finite(),
            forall|k: i64| #[trigger] m.contains_key(k) ==> m[k].wf(self.config),
            a.calls == field_sum(m, calls_field()),
            a.calls <= a.max_calls,
            a.max_calls == self.config.max_inflight_calls,
            self.config.spec_valid(),
            self.counters.queued == field_sum(m, queued_field()),
        ensures
            self.counters.queued < u64::MAX,
    {
        let g1 = |k: i64| queued_field::<T>()(m[k]);
        let g2 = |k: i64| calls_field::<T>()(m[k]);
        assert forall|x: i64| m.dom().contains(x) implies g1(x) <= g2(x) by {
            assert(m[x].wf(self.config));
        }
        lemma_sum_le(m.dom(), g1, g2);
    }

    /// The runner of `gid` starts on its oldest waiting call.
    pub fn start_runner(&mut self, gid: i64) -> (r: T)
        requires
            old(self).wf(),
            old(self).mailboxes().contains_key(gid),
            old(self).mailboxes()[gid].running is None,
            old(self).mailboxes()[gid].queue@.len() > 0,
        ensures
            final(self).wf(),
            ({
                let m = old(self).mailboxes();
                let n = final(self).mailboxes();
                let q = m[gid].queue@;
                &&& r == q[0].payload
                &&& n.dom() == m.dom()
                &&& forall|g: i64| g != gid && #[trigger] m.contains_key(g) ==> n[g] == m[g]
                &&& n[gid].queue@ == q.drop_first()
                &&& n[gid].running == Some(q[0].retained_kib)
            }),
            final(self).spec_config() == old(self).spec_config(),
            final(self).spec_state() == old(self).spec_state(),
            final(self).spec_dirty() == old(self).spec_dirty(),
            final(self).spec_admission() == old(self).spec_admission(),
            final(self).spec_counters() == (RuntimeCounters {
                queued: (old(self).spec_counters().queued - 1) as u64,
                ..old(self).spec_counters()
            }),
    {
        let ghost m = self.mailboxes@;
        let mut mb = self.mailboxes.remove(&gid).unwrap();
        let ghost mb0 = mb;
        proof {
            assert(mb0.wf(self.config));
            lemma_queue_kib_front(mb0.queue@);
        }
        let front = mb.queue.pop_front().unwrap();
        mb.running = Some(front.retained_kib);
        proof {
            assert(mb.queue@ =~= mb0.queue@.drop_first());
            assert(mb.wf(self.config));
            lemma_field_sum_insert(m, calls_field::<T>(), gid, mb);
            lemma_field_sum_insert(m, kib_field::<T>(), gid, mb);
            lemma_field_sum_insert(m, queued_field::<T>(), gid, mb);
        }
        self.mailboxes.insert(gid, mb);
        proof {
            assert(self.mailboxes@ =~= m.insert(gid, mb));
            assert(self.mailboxes@.dom() =~= m.dom());
        }
        self.counters.queued = self.counters.queued - 1;
        front.payload
    }

    /// The running call of `gid` completed: its KiB and call slot are given
    /// back, and the runner moves on to the next waiting call, if any.
    pub fn finish(&mut self, gid: i64) -> (r: Option<T>)
        requires
            old(self).wf(),
            old(self).mailboxes().contains_key(gid),
            old(self).mailboxes()[gid].running is Some,
        ensures
            final(self).wf(),
            ({
                let m = old(self).mailboxes();
                let n = final(self).mailboxes();
                let q = m[gid].queue@;
                let k = m[gid].running->0;
                &&& n.dom() == m.dom()
                &&& forall|g: i64| g != gid && #[trigger] m.contains_key(g) ==> n[g] == m[g]
                &&& final(self).spec_admission() == (Admission {
                    calls: (old(self).spec_admission().calls - 1) as u64,
                    kib: (old(self).spec_admission().kib - k) as u64,
                    ..old(self).spec_admission()
                })
                &&& if q.len() > 0 {
                    &&& r == Some(q[0].payload)
                    &&& n[gid].queue@ == q.drop_first()
                    &&& n[gid].running == Some(q[0].retained_kib)
                    &&& final(self).spec_counters().queued == old(self).spec_counters().queued - 1
                } else {
                    &&& r is None
                    &&& n[gid].queue@ == q
                    &&& n[gid].running is None
                    &&& final(self).spec_counters().queued == old(self).spec_counters().queued
                }
            }),
            final(self).spec_counters().completed == bump(old(self).spec_counters().completed),
            final(self).spec_counters().accepted == old(self).spec_counters().accepted,
            final(self).spec_config() == old(self).spec_config(),
            final(self).spec_state() == old(self).spec_state(),
            final(self).spec_dirty() == old(self).spec_dirty(),
    {
        let ghost m = self.mailboxes@;
        let mut mb = self.mailboxes.remove(&gid).unwrap();
        let ghost mb0 = mb;
        proof {
            assert(mb0.wf(self.config));
            lemma_field_sum_remove(m, calls_field::<T>(), gid);
            lemma_field_sum_remove(m, kib_field::<T>(), gid);
            if mb0.queue@.len() > 0 {
                lemma_queue_kib_front(mb0.queue@);
            }
        }
        let k = match mb.running {
            Some(k) => k,
            None => 0,
        };
        mb.inflight_calls = mb.inflight_calls - 1;
        mb.inflight_kib = mb.inflight_kib - k;
        mb.running = None;
        self.admission.release(k as u64);
        self.counters.completed = self.counters.completed.wrapping_add(1);
        let next = mb.queue.pop_front();
        let r = match next {
            Some(envelope) => {
                mb.running = Some(envelope.retained_kib);
                proof {
                    lemma_queue_kib_front(mb0.queue@);
                }
                Some(envelope.payload)
            },
            None => None,
        };
        proof {
            if mb0.queue@.len() > 0 {
                assert(mb.queue@ =~= mb0.queue@.drop_first());
            }
            assert(mb.wf(self.config));
            lemma_field_sum_insert(m, calls_field::<T>(), gid, mb);
            lemma_field_sum_insert(m, kib_field::<T>(), gid, mb);
            lemma_field_sum_insert(m, queued_field::<T>(), gid, mb);
        }
        self.mailboxes.insert(gid, mb);
        proof {
            assert(self.mailboxes@ =~= m.insert(gid, mb));
            assert(self.mailboxes@.dom() =~= m.dom());
        }
        if r.is_some() {
            self.counters.queued = self.counters.queued - 1;
        }
        r
    }

    /// The runner of `gid` found nothing to do: a call that arrived meanwhile
    /// starts running, otherwise the player's mailbox is retired.
    pub fn retire(&mut self, gid: i64) -> (r: Option<T>)
        requires
            old(self).wf(),
            old(self).mailboxes().contains_key(gid),
            old(self).mailboxes()[gid].running is None,
        ensures
            final(self).wf(),
            ({
                let m = old(self).mailboxes();
                let n = final(self).mailboxes();
                let q = m[gid].queue@;
                if q.len() > 0 {
                    &&& r == Some(q[0].payload)
                    &&& n.dom() == m.dom()
                    &&& forall|g: i64| g != gid && #[trigger] m.contains_key(g) ==> n[g] == m[g]
                    &&& n[gid].queue@ == q.drop_first()
                    &&& n[gid].running == Some(q[0].retained_kib)
                    &&& final(self).spec_counters() == (RuntimeCounters {
                        queued: (old(self).spec_counters().queued - 1) as u64,
                        ..old(self).spec_counters()
                    })
                } else {
                    &&& r is None
                    &&& n == m.remove(gid)
                    &&& final(self).spec_counters() == old(self).spec_counters()
                }
            }),
            final(self).spec_admission() == old(self).spec_admission(),
            final(self).spec_config() == old(self).spec_config(),
            final(self).spec_state() == old(self).spec_state(),
            final(self).spec_dirty() == old(self).spec_dirty(),
    {
        let ghost m = self.mailboxes@;
        let mb_ref = self.mailboxes.get(&gid);
        let waiting = match mb_ref {
            Some(mb) => mb.queue.len() > 0,
            None => false,
        };
        if waiting {
            return Some(self.start_runner(gid));
        }
        proof {
            assert(m[gid].wf(self.config));
            assert(m[gid].queue@.len() == 0);
            lemma_field_sum_remove(m, calls_field::<T>(), gid);
            lemma_field_sum_remove(m, kib_field::<T>(), gid);
            lemma_field_sum_remove(m, queued_field::<T>(), gid);
        }
        let _ = self.mailboxes.remove(&gid);
        None
    }

    /// Reserves a dirty slot for a clean player about to run business logic;
    /// refused (and counted) when every slot is taken.
    pub fn reserve_dirty(&mut self) -> (r: bool)
        requires
            old(self).wf(),
        ensures
            final(self).wf(),
            r == (old(self).spec_dirty().slots < old(self).spec_dirty().max),
            final(self).spec_dirty().slots == if r {
                old(self).spec_dirty().slots + 1
            } else {
                old(self).spec_dirty().slots as int
            },
            final(self).spec_dirty().max == old(self).spec_dirty().max,
            final(self).spec_counters() == (if r {
                RuntimeCounters {
                    dirty_slots_high_water: spec_max(
                        old(self).spec_counters().dirty_slots_high_water,
                        (old(self).spec_dirty().slots + 1) as u64,
                    ),
                    ..old(self).spec_counters()
                }
            } else {
                RuntimeCounters {
                    rejected_dirty: bump(old(self).spec_counters().rejected_dirty),
                    ..old(self).spec_counters()
                }
            }),
            final(self).mailboxes() == old(self).mailboxes(),
            final(self).spec_admission() == old(self).spec_admission(),
            final(self).spec_config() == old(self).spec_config(),
            final(self).spec_state() == old(self).spec_state(),
    {
        match self.dirty.acquire(&mut self.counters) {
            Some(permit) => {
                let _ = permit.commit();
                true
            },
            None => {
                self.counters.rejected_dirty = self.counters.rejected_dirty.wrapping_add(1);
                false
            },
        }
    }

    /// Counts one load of a player, and whether it failed.
    pub fn count_load(&mut self, failed: bool)
        requires
            old(self).wf(),
        ensures
            final(self).wf(),
            final(self).spec_counters() == (RuntimeCounters {
                load_calls: bump(old(self).spec_counters().load_calls),
                load_failed: if failed {
                    bump(old(self).spec_counters().load_failed)
                } else {
                    old(self).spec_counters().load_failed
                },
                ..old(self).spec_counters()
            }),
            final(self).spec_dirty() == old(self).spec_dirty(),
            final(self).mailboxes() == old(self).mailboxes(),
            final(self).spec_admission() == old(self).spec_admission(),
            final(self).spec_config() == old(self).spec_config(),
            final(self).spec_state() == old(self).spec_state(),
    {
        self.counters.load_calls = self.counters.load_calls.wrapping_add(1);
        if failed {
            self.counters.load_failed = self.counters.load_failed.wrapping_add(1);
        }
    }

    /// Counts one preload that starts, or one that failed.
    pub fn count_preload(&mut self, failed: bool)
        requires
            old(self).wf(),
        ensures
            final(self).wf(),
            final(self).spec_counters() == if failed {
                RuntimeCounters {
                    preload_failed: bump(old(self).spec_counters().preload_failed),
                    ..old(self).spec_counters()
                }
            } else {
                RuntimeCounters {
                    preload_calls: bump(old(self).spec_counters().preload_calls),
                    ..old(self).spec_counters()
                }
            },
            final(self).spec_dirty() == old(self).spec_dirty(),
            final(self).mailboxes() == old(self).mailboxes(),
            final(self).spec_admission() == old(self).spec_admission(),
            final(self).spec_config() == old(self).spec_config(),
            final(self).spec_state() == old(self).spec_state(),
    {
        if failed {
            self.counters.preload_failed = self.counters.preload_failed.wrapping_add(1);
        } else {
            self.counters.preload_calls = self.counters.preload_calls.wrapping_add(1);
        }
    }

    /// Counts one player saved, and whether the save failed.
    pub fn count_save(&mut self, failed: bool)
        requires
            old(self).wf(),
        ensures
            final(self).wf(),
            final(self).spec_counters() == (RuntimeCounters {
                save_calls: bump(old(self).spec_counters().save_calls),
                save_failed: if failed {
                    bump(old(self).spec_counters().save_failed)
                } else {
                    old(self).spec_counters().save_failed
                },
                ..old(self).spec_counters()
            }),
            final(self).spec_dirty() == old(self).spec_dirty(),
            final(self).mailboxes() == old(self).mailboxes(),
            final(self).spec_admission() == old(self).spec_admission(),
            final(self).spec_config() == old(self).spec_config(),
            final(self).spec_state() == old(self).spec_state(),
    {
        self.counters.save_calls = self.counters.save_calls.wrapping_add(1);
        if failed {
            self.counters.save_failed = self.counters.save_failed.wrapping_add(1);
        }
    }

    /// Gives a dirty slot back: its player was saved clean, or the
    /// reservation was not used.
    pub fn release_dirty(&mut self)
        requires
            old(self).wf(),
            old(self).spec_dirty().slots > 0,
        ensures
            final(self).wf(),
            final(self).spec_dirty().slots == old(self).spec_dirty().slots - 1,
            final(self).spec_dirty().max == old(self).spec_dirty().max,
            final(self).spec_counters() == old(self).spec_counters(),
            final(self).mailboxes() == old(self).mailboxes(),
            final(self).spec_admission() == old(self).spec_admission(),
            final(self).spec_config() == old(self).spec_config(),
            final(self).spec_state() == old(self).spec_state(),
    {
        self.dirty.release();
    }

    /// Starts a shutdown: admission closes and a running runtime drains.
    /// Answers false when the runtime had already stopped.
    pub fn begin_shutdown(&mut self) -> (r: bool)
        requires
            old(self).wf(),
        ensures
            final(self).wf(),
            r == (old(self).spec_state() != RuntimeState::Stopped),
            final(self).spec_state() == (if old(self).spec_state() == RuntimeState::Running {
                RuntimeState::Draining
            } else {
                old(self).spec_state()
            }),
            final(self).spec_admission() == (if r {
                Admission { closed: true, ..old(self).spec_admission() }
            } else {
                old(self).spec_admission()
            }),
            final(self).mailboxes() == old(self).mailboxes(),
            final(self).spec_counters() == old(self).spec_counters(),
            final(self).spec_dirty() == old(self).spec_dirty(),
            final(self).spec_config() == old(self).spec_config(),
    {
        match self.state {
            RuntimeState::Stopped => false,
            RuntimeState::Running => {
                self.admission.close();
                self.state = RuntimeState::Draining;
                true
            },
            RuntimeState::Draining => {
                self.admission.close();
                true
            },
        }
    }

    /// No call is in flight and every runner has retired.
    pub fn drained(&self) -> (r: bool)
        ensures
            r == (self.spec_admission().calls == 0 && self.mailboxes().dom().len() == 0),
    {
        self.admission.calls == 0 && self.mailboxes.len() == 0
    }

    /// Ends a shutdown once every accepted call completed and the final
    /// flush ran: a failed flush is reported; players left dirty (by either
    /// count) keep the runtime draining; otherwise it stops. Either way the
    /// shutdown may be tried again.
    pub fn finish_shutdown<E>(&mut self, flush: FlushOutcome<E>, dirty_players: u64) -> (r: Result<
        (),
        ShutdownError<E>,
    >)
        requires
            old(self).wf(),
            old(self).spec_state() != RuntimeState::Running,
            old(self).spec_admission().calls == 0,
            old(self).mailboxes().dom().len() == 0,
        ensures
            final(self).wf(),
            final(self).mailboxes() == old(self).mailboxes(),
            final(self).spec_counters() == old(self).spec_counters(),
            final(self).spec_dirty() == old(self).spec_dirty(),
            final(self).spec_admission() == old(self).spec_admission(),
            final(self).spec_config() == old(self).spec_config(),
            flush matches FlushOutcome::Failed(e) ==> r matches Err(ShutdownError::Persistence(x)) && x == e,
            flush is Flushed ==> ({
                let dirty = spec_max(dirty_players, old(self).spec_dirty().slots);
                if dirty != 0 {
                    r matches Err(ShutdownError::DirtyPlayers(n)) && n == dirty
                } else {
                    r is Ok
                }
            }),
            final(self).spec_state() == (if r is Ok {
                RuntimeState::Stopped
            } else {
                old(self).spec_state()
            }),
    {
        match flush {
            FlushOutcome::Failed(e) => Err(ShutdownError::Persistence(e)),
            FlushOutcome::Flushed => {
                let slots = self.dirty.slots();
                let dirty = if dirty_players > slots {
                    dirty_players
                } else {
                    slots
                };
                if dirty != 0 {
                    return Err(ShutdownError::DirtyPlayers(dirty));
                }
                self.state = RuntimeState::Stopped;
                Ok(())
            },
        }
    }

    /// The runtime never holds more calls or retained KiB than its global and
    /// per-player limits allow, nor more dirty slots than its dirty limit; a
    /// player's waiting calls never outnumber its calls in flight.
    pub proof fn law_limits_hold(&self)
        requires
            self.wf(),
        ensures
            self.spec_admission().calls <= self.spec_config().max_inflight_calls,
            self.spec_admission().kib <= self.spec_config().max_inflight_kib,
            self.spec_dirty().slots <= self.spec_config().max_dirty_players,
            self.spec_counters().queued <= self.spec_admission().calls,
            forall|g: i64| #[trigger]
                self.mailboxes().contains_key(g) ==> {
                    let mb = self.mailboxes()[g];
                    &&& mb.inflight_calls <= self.spec_config().max_calls_per_gid
                    &&& mb.inflight_kib <= self.spec_config().max_kib_per_gid
                    &&& mb.queue@.len() <= mb.inflight_calls
                },
    {
        self.lemma_queued_le_calls();
        assert forall|g: i64| #[trigger] self.mailboxes().contains_key(g) implies {
            let mb = self.mailboxes()[g];
            &&& mb.inflight_calls <= self.spec_config().max_calls_per_gid
            &&& mb.inflight_kib <= self.spec_config().max_kib_per_gid
            &&& mb.queue@.len() <= mb.inflight_calls
        } by {
            assert(self.mailboxes@[g].wf(self.config));
        }
    }

    /// A stopped runtime is drained: no call is in flight and no player has
    /// a runner.
    pub proof fn law_stopped_is_drained(&self)
        requires
            self.wf(),
        ensures
            self.spec_state() == RuntimeState::Stopped ==> self.spec_admission().calls == 0
                && self.mailboxes().dom().len() == 0,
    {
    }

    /// Once a shutdown has begun no call is admitted any more.
    pub proof fn law_no_admission_after_shutdown(&self, gid: i64, retained_kib: usize)
        requires
            self.wf(),
            self.spec_state() != RuntimeState::Running,
        ensures
            self.enqueue_decision(gid, retained_kib) is Err,
    {
    }

    /// A runtime with nothing in flight admits a call of any player that fits
    /// the per-player KiB limit, and asks for that player's runner.
    pub proof fn law_idle_runtime_admits(&self, gid: i64, retained_kib: usize)
        requires
            self.wf(),
            self.spec_state() == RuntimeState::Running,
            self.spec_admission().calls == 0,
            self.mailboxes().dom().len() == 0,
            charged_kib(retained_kib) <= self.spec_config().max_kib_per_gid,
            charged_kib(retained_kib) <= self.spec_config().max_inflight_kib,
        ensures
            self.enqueue_decision(gid, retained_kib) == Ok::<bool, RejectReason>(true),
    {
        assert(!self.mailboxes@.contains_key(gid));
        let m = self.mailboxes@;
        lemma_sum_le(m.dom(), |k: i64| kib_field::<T>()(m[k]), |k: i64| 0nat);
        assert(m.dom() =~= Set::<i64>::empty());
        assert(sum_over(Set::<i64>::empty(), |k: i64| kib_field::<T>()(m[k])) == 0);
    }
}

/// The KiB a call is charged: what it retains, and at least one.
pub open spec fn charged_kib(retained_kib: usize) -> usize {
    if retained_kib == 0 {
        1
    } else {
        retained_kib
    }
}

// ---------------------------------------------------------------------------
// The dirty-player registry
// ---------------------------------------------------------------------------

/// When each dirty resident player became dirty (milliseconds), by the id
/// the runtime gave it, and how many there are.
pub struct DirtyRegistry {
    since: HashMap<u64, u64>,
    dirty_players: u64,
}

impl DirtyRegistry {
    /// When each dirty player became dirty, by player id.
    pub closed spec fn dirty_since(&self) -> Map<u64, u64> {
        self.since@
    }

    pub closed spec fn wf(&self) -> bool {
        self.dirty_players == self.since@.dom().len()
    }

    pub fn new() -> (r: Self)
        ensures
            r.wf(),
            r.dirty_since() == Map::<u64, u64>::empty(),
    {
        let r = DirtyRegistry { since: HashMap::new(), dirty_players: 0 };
        proof {
            assert(r.since@.dom() =~= Set::<u64>::empty());
        }
        r
    }

    /// Records whether player `player_id` is dirty at `now`: a player that
    /// turns dirty is stamped once, a clean one leaves the registry.
    pub fn mark_dirty(&mut self, player_id: u64, dirty: bool, now: u64)
        requires
            old(self).wf(),
            old(self).dirty_since().dom().len() < u64::MAX,
        ensures
            final(self).wf(),
            final(self).dirty_since() == (if dirty {
                if old(self).dirty_since().contains_key(player_id) {
                    old(self).dirty_since()
                } else {
                    old(self).dirty_since().insert(player_id, now)
                }
            } else {
                old(self).dirty_since().remove(player_id)
            }),
    {
        let present = self.since.contains_key(&player_id);
        if dirty {
            if !present {
                self.since.insert(player_id, now);
                self.dirty_players = self.dirty_players + 1;
            }
        } else if present {
            self.since.remove(&player_id);
            self.dirty_players = self.dirty_players - 1;
        } else {
            proof {
                assert(self.since@.remove(player_id) =~= self.since@);
            }
        }
    }

    /// How many players are dirty.
    pub fn dirty_players(&self) -> (r: u64)
        requires
            self.wf(),
        ensures
            r == self.dirty_since().dom().len(),
    {
        self.dirty_players
    }

    /// How long the oldest dirty player has been dirty at `now`; zero when
    /// none is, or when its stamp lies in the future.
    pub fn oldest_dirty_age(&self, now: u64) -> (r: u64)
        ensures
            self.dirty_since().dom().len() == 0 ==> r == 0,
            self.dirty_since().dom().len() > 0 ==> exists|id: u64|
                #[trigger] self.dirty_since().contains_key(id) && (forall|other: u64|
                    #[trigger] self.dirty_since().contains_key(other) ==> self.dirty_since()[id]
                        <= self.dirty_since()[other]) && r == (if now >= self.dirty_since()[id] {
                    now - self.dirty_since()[id]
                } else {
                    0
                }),
    {
        let ghost m = self.since@;
        let ghost all = vstd::std_specs::hash::spec_values_iter(&self.since).remaining().unref();
        proof {
            vstd::std_specs::hash::axiom_spec_values_iter(&self.since);
        }
        let mut oldest: Option<u64> = None;
        for v in it: self.since.values()
            invariant
                it.seq().unref() == all,
                all.to_set() == m.values(),
                m == self.since@,
                oldest is None <==> it.index() == 0,
                oldest matches Some(o) ==> all.take(it.index()).contains(o) && forall|j: int|
                    0 <= j < it.index() ==> o <= #[trigger] all[j],
        {
            let value = *v;
            let ghost idx = it.index();
            proof {
                assert(all[idx] == value);
            }
            let next = match oldest {
                Some(o) => if value < o {
                    value
                } else {
                    o
                },
                None => value,
            };
            proof {
                assert(all.take(idx + 1) =~= all.take(idx).push(value));
                if let Some(o) = oldest {
                    if next == o {
                        let k = choose|k: int| 0 <= k < idx && all.take(idx)[k] == o;
                        assert(all.take(idx + 1)[k] == o);
                    } else {
                        assert(all.take(idx + 1)[idx] == value);
                    }
                } else {
                    assert(all.take(idx + 1)[idx] == value);
                }
            }
            oldest = Some(next);
        }
        match oldest {
            None => {
                proof {
                    if m.dom().len() > 0 {
                        assert(all.len() == m.dom().len());
                    }
                }
                0
            },
            Some(o) => {
                proof {
                    assert(all.take(all.len() as int) =~= all);
                    assert(all.to_set().contains(o));
                    assert(m.values().contains(o));
                    let id = choose|id: u64| #[trigger] m.contains_key(id) && m[id] == o;
                    assert forall|other: u64| #[trigger] m.contains_key(other) implies m[id]
                        <= m[other] by {
                        assert(m.values().contains(m[other]));
                        assert(all.to_set().contains(m[other]));
                        let j = choose|j: int| 0 <= j < all.len() && all[j] == m[other];
                    }
                    assert(m.dom().len() > 0) by {
                        assert(m.dom().contains(id));
                    }
                }
                if now >= o {
                    now - o
                } else {
                    0
                }
            },
        }
    }
}

} // verus!
