//! One queued call of a player, from its runner's point of view: the player
//! is loaded, a dirty slot is secured before the business logic may dirty
//! it, an optional preload runs, the logic runs, and a player the call left
//! dirty is saved before the call completes with the save outcome.

use crate::runtime::{
    bump, spec_max, CacheFailure, DirtySlot, LogicCallError, RuntimeCore, RuntimeCounters,
};
use std::sync::Arc;
use vstd::prelude::*;

verus! {

/// Where a call stands: the outside work it waits for.
#[derive(Clone, Copy, Debug, PartialEq, Eq, Structural)]
pub enum RunStage {
    Loading,
    Preloading,
    Running,
    Saving,
    Done,
}

/// What the outside work of a call gave back.
pub enum RunEvent<E> {
    /// The resident player's dirty slot (a freshly loaded player holds
    /// none), or why the player cache could not give the player; `fresh`
    /// tells whether the loader ran for this call.
    Loaded { fresh: bool, result: Result<DirtySlot, CacheFailure<E>> },
    /// The preload finished, or failed.
    Preloaded(Result<(), Arc<E>>),
    /// The business logic ran; whether it left the player dirty.
    Ran { dirty: bool },
    /// The save finished; whether the player is still dirty after it.
    Saved { result: Result<(), Arc<E>>, still_dirty: bool },
}

/// The next thing the runner does for the call.
pub enum RunAction<E> {
    Load,
    Preload,
    RunLogic,
    Save,
    /// Complete the call with this error; its business logic does not run.
    Fail(LogicCallError<E>),
    /// Complete the call with its value and this save outcome.
    Complete(Result<(), Arc<E>>),
}

/// One call on its way through the runner. `slot` is the player's dirty
/// slot while the call holds the player; `reserved` tells whether a slot
/// was reserved for this call.
pub struct RunCall {
    pub stage: RunStage,
    pub preload: bool,
    pub slot: DirtySlot,
    pub reserved: bool,
}

/// The runtime's bookkeeping is the same but for its dirty slots and counters.
pub open spec fn same_but_dirty<T>(a: RuntimeCore<T>, b: RuntimeCore<T>) -> bool {
    &&& a.mailboxes() == b.mailboxes()
    &&& a.spec_admission() == b.spec_admission()
    &&& a.spec_config() == b.spec_config()
    &&& a.spec_state() == b.spec_state()
}

/// The counters after the player cache answered: a load the loader ran
/// counts, and so does its failure.
pub open spec fn after_load<E>(c: RuntimeCounters, fresh: bool, result: Result<DirtySlot, CacheFailure<E>>) -> RuntimeCounters {
    if fresh {
        RuntimeCounters {
            load_calls: bump(c.load_calls),
            load_failed: if result matches Err(CacheFailure::Load(_)) {
                bump(c.load_failed)
            } else {
                c.load_failed
            },
            ..c
        }
    } else {
        c
    }
}

/// The counters when the call moves on from its player: a preload that
/// starts counts.
pub open spec fn after_start(c: RuntimeCounters, preload: bool) -> RuntimeCounters {
    if preload {
        RuntimeCounters { preload_calls: bump(c.preload_calls), ..c }
    } else {
        c
    }
}

/// The action the runner takes while the call waits at `stage`.
pub open spec fn pending_run_action<E>(r: RunAction<E>, stage: RunStage) -> bool {
    match stage {
        RunStage::Loading => r is Load,
        RunStage::Preloading => r is Preload,
        RunStage::Running => r is RunLogic,
        RunStage::Saving => r is Save,
        RunStage::Done => false,
    }
}

impl RunCall {
    /// Between steps a call holds a slot for its player exactly while it may
    /// run or save: from the moment the slot is secured until the player is
    /// clean again.
    pub open spec fn wf(&self) -> bool {
        match self.stage {
            RunStage::Loading => !self.reserved && !self.slot.held,
            RunStage::Preloading | RunStage::Running => self.slot.held != self.reserved,
            RunStage::Saving => self.slot.held && !self.reserved,
            RunStage::Done => !self.reserved,
        }
    }

    /// The call counts a dirty slot of the runtime as its own.
    pub open spec fn holding(&self) -> bool {
        self.slot.held || self.reserved
    }

    /// Starts a call: its player is loaded first.
    pub fn begin<E>(preload: bool) -> (r: (RunCall, RunAction<E>))
        ensures
            r.0.stage == RunStage::Loading,
            r.0.preload == preload,
            !r.0.reserved && !r.0.slot.held,
            r.0.wf(),
            r.1 is Load,
    {
        (RunCall { stage: RunStage::Loading, preload, slot: DirtySlot { held: false }, reserved: false }, RunAction::Load)
    }

    /// Takes the result of the outside work the call waited for and answers
    /// what the runner does next, reserving and giving back dirty slots of
    /// the runtime as it goes. An event that does not answer the pending
    /// work changes nothing and the pending action is asked again.
    pub fn step<T, E>(&mut self, core: &mut RuntimeCore<T>, event: RunEvent<E>) -> (r: RunAction<E>)
        requires
            old(core).wf(),
            old(self).stage != RunStage::Done,
            old(self).wf(),
            old(self).holding() ==> old(core).spec_dirty().slots > 0,
            event matches RunEvent::Loaded { result: Ok(s), .. } && s.held ==> old(core).spec_dirty().slots
                > 0,
        ensures
            final(core).wf(),
            final(self).wf(),
            final(self).preload == old(self).preload,
            same_but_dirty(*final(core), *old(core)),
            final(core).spec_dirty().max == old(core).spec_dirty().max,
            final(self).holding() ==> final(core).spec_dirty().slots > 0,
            ({
                let s = *old(self);
                let t = *final(self);
                let d0 = old(core).spec_dirty().slots;
                let d1 = final(core).spec_dirty().slots;
                let c0 = old(core).spec_counters();
                let c1 = final(core).spec_counters();
                match (s.stage, event) {
                    (RunStage::Loading, RunEvent::Loaded { fresh, result: Err(e) }) => {
                        &&& t.stage == RunStage::Done
                        &&& d1 == d0 && c1 == after_load(c0, fresh, Err::<DirtySlot, CacheFailure<E>>(e))
                        &&& match e {
                            CacheFailure::Load(x) => r matches RunAction::Fail(LogicCallError::Load(y)) && y == x,
                            CacheFailure::Save(x) => r matches RunAction::Fail(
                                LogicCallError::Persistence(y),
                            ) && y == x,
                        }
                    },
                    (RunStage::Loading, RunEvent::Loaded { fresh, result: Ok(slot) }) => {
                        let cl = after_load(c0, fresh, Ok::<DirtySlot, CacheFailure<E>>(slot));
                        if slot.held {
                        &&& t.slot == slot && !t.reserved
                        &&& d1 == d0 && c1 == after_start(cl, s.preload)
                        &&& if s.preload {
                            t.stage == RunStage::Preloading && r is Preload
                        } else {
                            t.stage == RunStage::Running && r is RunLogic
                        }
                    } else if d0 < old(core).spec_dirty().max {
                        &&& t.slot == slot && t.reserved
                        &&& d1 == d0 + 1
                        &&& c1 == after_start(
                            RuntimeCounters {
                                dirty_slots_high_water: spec_max(cl.dirty_slots_high_water, (d0 + 1) as u64),
                                ..cl
                            },
                            s.preload,
                        )
                        &&& if s.preload {
                            t.stage == RunStage::Preloading && r is Preload
                        } else {
                            t.stage == RunStage::Running && r is RunLogic
                        }
                    } else {
                        &&& t.stage == RunStage::Done && !t.reserved && t.slot == slot
                        &&& d1 == d0
                        &&& c1 == (RuntimeCounters { rejected_dirty: bump(cl.rejected_dirty), ..cl })
                        &&& r matches RunAction::Fail(LogicCallError::DirtyCapacity)
                    }
                    },
                    (RunStage::Preloading, RunEvent::Preloaded(p)) => match p {
                        Ok(_) => t.stage == RunStage::Running && r is RunLogic && t.slot == s.slot
                            && t.reserved == s.reserved && d1 == d0 && c1 == c0,
                        Err(e) => {
                            &&& t.stage == RunStage::Done && !t.reserved && t.slot == s.slot
                            &&& d1 == (if s.reserved { d0 - 1 } else { d0 as int })
                            &&& c1 == (RuntimeCounters { preload_failed: bump(c0.preload_failed), ..c0 })
                            &&& r matches RunAction::Fail(LogicCallError::Preload(y)) && y == e
                        },
                    },
                    (RunStage::Running, RunEvent::Ran { dirty }) => {
                        &&& t.slot.held == dirty && !t.reserved && c1 == c0
                        &&& d1 == (if !dirty && s.holding() { d0 - 1 } else { d0 as int })
                        &&& if dirty {
                            t.stage == RunStage::Saving && r is Save
                        } else {
                            t.stage == RunStage::Done && r matches RunAction::Complete(Ok(()))
                        }
                    },
                    (RunStage::Saving, RunEvent::Saved { result, still_dirty }) => {
                        &&& t.stage == RunStage::Done && !t.reserved
                        &&& c1 == (RuntimeCounters {
                            save_calls: bump(c0.save_calls),
                            save_failed: if result is Err {
                                bump(c0.save_failed)
                            } else {
                                c0.save_failed
                            },
                            ..c0
                        })
                        &&& t.slot.held == still_dirty
                        &&& d1 == (if still_dirty { d0 as int } else { d0 - 1 })
                        &&& r matches RunAction::Complete(x) && x == result
                    },
                    _ => t == s && d1 == d0 && c1 == c0 && pending_run_action(r, s.stage),
                }
            }),
    {
        match (self.stage, event) {
            (RunStage::Loading, RunEvent::Loaded { fresh, result }) => {
                if fresh {
                    let failed = match &result {
                        Err(CacheFailure::Load(_)) => true,
                        _ => false,
                    };
                    core.count_load(failed);
                }
                match result {
                Err(e) => {
                    self.stage = RunStage::Done;
                    RunAction::Fail(crate::runtime::map_cache_error(e))
                },
                Ok(slot) => {
                    self.slot = slot;
                    if !slot.held {
                        if core.reserve_dirty() {
                            self.reserved = true;
                        } else {
                            self.stage = RunStage::Done;
                            return RunAction::Fail(LogicCallError::DirtyCapacity);
                        }
                    }
                    if self.preload {
                        core.count_preload(false);
                        self.stage = RunStage::Preloading;
                        RunAction::Preload
                    } else {
                        self.stage = RunStage::Running;
                        RunAction::RunLogic
                    }
                },
                }
            },
            (RunStage::Preloading, RunEvent::Preloaded(p)) => match p {
                Ok(_) => {
                    self.stage = RunStage::Running;
                    RunAction::RunLogic
                },
                Err(e) => {
                    core.count_preload(true);
                    if self.reserved {
                        core.release_dirty();
                        self.reserved = false;
                    }
                    self.stage = RunStage::Done;
                    RunAction::Fail(LogicCallError::Preload(e))
                },
            },
            (RunStage::Running, RunEvent::Ran { dirty }) => {
                let releases = self.slot.finish_logic(dirty, self.reserved);
                self.reserved = false;
                if releases > 0 {
                    core.release_dirty();
                }
                if dirty {
                    self.stage = RunStage::Saving;
                    RunAction::Save
                } else {
                    self.stage = RunStage::Done;
                    RunAction::Complete(Ok(()))
                }
            },
            (RunStage::Saving, RunEvent::Saved { result, still_dirty }) => {
                core.count_save(result.is_err());
                if self.slot.refresh_dirty(still_dirty) {
                    core.release_dirty();
                }
                self.stage = RunStage::Done;
                RunAction::Complete(result)
            },
            (RunStage::Loading, other) => {
                let _ = other;
                RunAction::Load
            },
            (RunStage::Preloading, other) => {
                let _ = other;
                RunAction::Preload
            },
            (RunStage::Running, other) => {
                let _ = other;
                RunAction::RunLogic
            },
            (RunStage::Saving, other) => {
                let _ = other;
                RunAction::Save
            },
            (RunStage::Done, other) => {
                let _ = other;
                RunAction::Load
            },
        }
    }
}

// ---------------------------------------------------------------------------
// The shutdown flush
// ---------------------------------------------------------------------------

pub open spec fn increasing(s: Seq<i64>) -> bool {
    forall|i: int, j: int| 0 <= i <= j < s.len() ==> s[i] <= s[j]
}

fn insert_in_order(v: &mut Vec<i64>, x: i64)
    requires
        increasing(old(v)@),
    ensures
        increasing(final(v)@),
        final(v)@.to_multiset() == old(v)@.to_multiset().insert(x),
{
    let mut p: usize = 0;
    while p < v.len() && v[p] <= x
        invariant
            p <= v.len(),
            forall|k: int| 0 <= k < p ==> v@[k] <= x,
        decreases v.len() - p,
    {
        p = p + 1;
    }
    let ghost before = v@;
    v.insert(p, x);
    proof {
        vstd::seq_lib::to_multiset_insert(before, p as int, x);
        assert forall|i: int, j: int| 0 <= i <= j < v@.len() implies v@[i] <= v@[j] by {
            if i < p && j > p {
                assert(v@[j] == before[j - 1]);
                assert(before[i] <= before[j - 1]);
            } else if i == p && j > p {
                assert(v@[j] == before[j - 1]);
                assert(before[p as int] <= before[j - 1]);
            } else if i > p {
                assert(v@[i] == before[i - 1]);
                assert(v@[j] == before[j - 1]);
            }
        }
    }
}

/// The gids of the players a shutdown flush saves, in increasing order.
pub fn gid_order(gids: Vec<i64>) -> (r: Vec<i64>)
    ensures
        increasing(r@),
        r@.to_multiset() == gids@.to_multiset(),
{
    broadcast use vstd::seq_lib::group_to_multiset_ensures;

    let ghost all = gids@;
    let mut rest = gids;
    let mut out: Vec<i64> = Vec::new();
    while rest.len() > 0
        invariant
            increasing(out@),
            out@.to_multiset().add(rest@.to_multiset()) == all.to_multiset(),
        decreases rest.len(),
    {
        let ghost before_rest = rest@;
        let g = rest.pop().unwrap();
        proof {
            assert(before_rest =~= rest@.push(g));
            vstd::seq_lib::to_multiset_build(rest@, g);
        }
        let ghost before = out@;
        insert_in_order(&mut out, g);
        proof {
            assert(out@.to_multiset().add(rest@.to_multiset()) =~= before.to_multiset().add(
                before_rest.to_multiset(),
            ));
        }
    }
    proof {
        assert(rest@.to_multiset() =~= vstd::multiset::Multiset::empty());
        assert(out@.to_multiset().add(rest@.to_multiset()) =~= out@.to_multiset());
    }
    out
}

pub open spec fn batch_views(b: Seq<Vec<i64>>) -> Seq<Seq<i64>> {
    b.map_values(|v: Vec<i64>| v@)
}

/// The batches a flush saves `gids` in: the gids in their order, cut into
/// batches of `batch_size`, the last of which may be shorter.
pub fn batches(gids: &Vec<i64>, batch_size: usize) -> (r: Vec<Vec<i64>>)
    requires
        batch_size > 0,
    ensures
        batch_views(r@).flatten() == gids@,
        forall|i: int| 0 <= i < r@.len() ==> 0 < (#[trigger] r@[i]).len() <= batch_size,
        forall|i: int| 0 <= i < r@.len() - 1 ==> (#[trigger] r@[i]).len() == batch_size,
{
    broadcast use Seq::lemma_flatten_push;

    let mut out: Vec<Vec<i64>> = Vec::new();
    let mut cur: Vec<i64> = Vec::new();
    let mut i: usize = 0;
    while i < gids.len()
        invariant
            i <= gids.len(),
            batch_size > 0,
            batch_views(out@).flatten() + cur@ == gids@.take(i as int),
            cur@.len() < batch_size,
            forall|k: int| 0 <= k < out@.len() ==> (#[trigger] out@[k]).len() == batch_size,
        decreases gids.len() - i,
    {
        cur.push(gids[i]);
        proof {
            assert(gids@.take(i + 1) =~= gids@.take(i as int).push(gids@[i as int]));
        }
        i = i + 1;
        if cur.len() == batch_size {
            let ghost before = out@;
            let full = cur;
            cur = Vec::new();
            out.push(full);
            proof {
                assert(batch_views(out@) =~= batch_views(before).push(full@));
                batch_views(before).lemma_flatten_push(full@);
                assert(cur@ =~= Seq::<i64>::empty());
                assert(batch_views(out@).flatten() + cur@ =~= batch_views(before).flatten() + full@);
            }
        }
    }
    if cur.len() > 0 {
        let ghost before = out@;
        let last = cur;
        out.push(last);
        proof {
            assert(batch_views(out@) =~= batch_views(before).push(last@));
            batch_views(before).lemma_flatten_push(last@);
        }
    } else {
        proof {
            assert(batch_views(out@).flatten() + cur@ =~= batch_views(out@).flatten());
        }
    }
    proof {
        assert(gids@.take(gids@.len() as int) =~= gids@);
    }
    out
}

} // verus!
