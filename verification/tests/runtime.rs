use xkk_server::runtime::{DirtyRegistry, DirtySlot, RuntimeCounters};
use xkk_server::runtime::{
    directory_index, logic_config, mix_i64, power_of_two, update_high_water, Admission,
    DirtyAdmission, FlushOutcome, LogicConfig, LogicConfigError, RejectReason, RuntimeCore,
    RuntimeState, ShutdownError,
};

#[test]
fn logic_config_is_the_hard_limits() {
    let config = logic_config();
    assert_eq!(config, LogicConfig::hard_limits());
    assert_eq!(config.resident_capacity, 100_000);
    assert_eq!(config.shards, 128);
    assert_eq!(config.max_calls_per_gid, 64);
    assert_eq!(config.max_kib_per_gid, 1_024);
    assert_eq!(config.check(), Ok(()));
    config.validate();
}

#[test]
fn logic_config_names_the_first_broken_rule() {
    let odd_shards = LogicConfig { shards: 100, ..LogicConfig::hard_limits() };
    assert_eq!(odd_shards.check(), Err(LogicConfigError::Shards));
    let no_capacity = LogicConfig { resident_capacity: 0, shards: 3, ..LogicConfig::hard_limits() };
    assert_eq!(no_capacity.check(), Err(LogicConfigError::ResidentCapacity));
    assert!(power_of_two(128));
    assert!(!power_of_two(0));
    assert!(!power_of_two(96));
}

#[test]
fn mix_spreads_ids_as_splitmix_does() {
    assert_eq!(mix_i64(0), 0);
    assert_eq!(mix_i64(1), 6238072747940578789);
    assert_eq!(mix_i64(7), 1346066267577507604);
    assert_eq!(mix_i64(-1), 13029008266876403067);
    assert_eq!(directory_index(1, 127), (6238072747940578789u64 as usize) & 127);
}

#[test]
fn high_water_only_rises() {
    let mut mark = 5;
    update_high_water(&mut mark, 3);
    assert_eq!(mark, 5);
    update_high_water(&mut mark, 9);
    assert_eq!(mark, 9);
}

#[test]
fn admission_rejects_calls_then_bytes_then_after_close() {
    let config = LogicConfig { max_inflight_calls: 2, max_inflight_kib: 10, ..LogicConfig::hard_limits() };
    let mut admission = Admission::new(&config);
    let mut counters = RuntimeCounters::default();
    assert_eq!(admission.acquire(6, &mut counters), Ok(()));
    assert_eq!(admission.acquire(5, &mut counters), Err(RejectReason::KiB));
    assert_eq!(admission.acquire(4, &mut counters), Ok(()));
    assert_eq!(admission.acquire(1, &mut counters), Err(RejectReason::Calls));
    assert_eq!(admission.inflight_calls(), 2);
    admission.release(4);
    admission.close();
    assert_eq!(admission.acquire(1, &mut counters), Err(RejectReason::Draining));
    assert_eq!(admission.inflight_calls(), 1);
    assert_eq!(counters.rejected_kib, 1);
    assert_eq!(counters.rejected_calls, 1);
    assert_eq!(counters.rejected_draining, 1);
    assert_eq!(counters.inflight_calls_high_water, 2);
    assert_eq!(counters.inflight_kib_high_water, 10);
}

#[test]
fn dirty_admission_is_bounded() {
    let mut dirty = DirtyAdmission::new(1);
    let mut counters = RuntimeCounters::default();
    let permit = dirty.acquire(&mut counters);
    assert!(permit.is_some());
    assert!(dirty.acquire(&mut counters).is_none());
    assert_eq!(dirty.slots(), 1);
    assert_eq!(counters.dirty_slots_high_water, 1);
    let committed = permit.unwrap().commit();
    assert!(!committed.active);
    dirty.abandon(committed);
    assert_eq!(dirty.slots(), 1);
    dirty.release();
    assert_eq!(dirty.slots(), 0);
}

#[test]
fn an_uncommitted_dirty_permit_gives_its_slot_back() {
    let mut dirty = DirtyAdmission::new(2);
    let mut counters = RuntimeCounters::default();
    let permit = dirty.acquire(&mut counters).unwrap();
    assert_eq!(dirty.slots(), 1);
    dirty.abandon(permit);
    assert_eq!(dirty.slots(), 0);
}

#[test]
fn one_runner_per_player_and_none_after_shutdown() {
    let config = LogicConfig { max_calls_per_gid: 2, ..LogicConfig::hard_limits() };
    let mut runtime: RuntimeCore<u32> = RuntimeCore::new(config);
    assert_eq!(runtime.enqueue(7, 1, 10), Ok(true));
    assert_eq!(runtime.enqueue(7, 1, 11), Ok(false));
    assert_eq!(runtime.enqueue(7, 1, 12), Err(RejectReason::Gid));
    assert_eq!(runtime.waiting(7), 2);
    assert_eq!(runtime.start_runner(7), 10);
    assert_eq!(runtime.runner_state(7), Some(true));
    assert_eq!(runtime.finish(7), Some(11));
    assert_eq!(runtime.finish(7), None);
    assert_eq!(runtime.runner_state(7), Some(false));
    assert_eq!(runtime.retire(7), None);
    assert_eq!(runtime.runner_state(7), None);
    assert!(runtime.begin_shutdown());
    assert_eq!(runtime.state(), RuntimeState::Draining);
    assert_eq!(runtime.enqueue(8, 1, 13), Err(RejectReason::Draining));
    assert!(runtime.drained());
    assert!(runtime.finish_shutdown::<String>(FlushOutcome::Flushed, 0).is_ok());
    assert_eq!(runtime.state(), RuntimeState::Stopped);
}

#[test]
fn shutdown_reports_players_left_dirty() {
    let mut runtime: RuntimeCore<u32> = RuntimeCore::new(LogicConfig::hard_limits());
    assert!(runtime.reserve_dirty());
    runtime.begin_shutdown();
    match runtime.finish_shutdown::<String>(FlushOutcome::Flushed, 0) {
        Err(ShutdownError::DirtyPlayers(n)) => assert_eq!(n, 1),
        other => panic!("unexpected outcome {other:?}"),
    }
    assert_eq!(runtime.state(), RuntimeState::Draining);
    match runtime.finish_shutdown::<String>(FlushOutcome::Failed(std::sync::Arc::new("disk".to_string())), 0) {
        Err(ShutdownError::Persistence(error)) => assert_eq!(error.as_str(), "disk"),
        other => panic!("unexpected outcome {other:?}"),
    }
    runtime.release_dirty();
    assert!(runtime.finish_shutdown::<String>(FlushOutcome::Flushed, 0).is_ok());
    assert_eq!(runtime.state(), RuntimeState::Stopped);
}

#[test]
fn a_new_runtime_starts_with_the_configured_limits() {
    let config = LogicConfig { max_inflight_calls: 1, max_dirty_players: 1, ..LogicConfig::hard_limits() };
    let mut runtime: RuntimeCore<u32> = RuntimeCore::new(config);
    assert_eq!(runtime.enqueue(1, 1, 10), Ok(true));
    assert_eq!(runtime.enqueue(2, 1, 11), Err(RejectReason::Calls));
    assert_eq!(runtime.counters().rejected_calls, 1);
    assert!(runtime.reserve_dirty());
    assert!(!runtime.reserve_dirty());
    assert_eq!(runtime.counters().rejected_dirty, 1);
    assert_eq!(runtime.counters().dirty_slots_high_water, 1);
}

#[test]
fn a_player_holds_a_dirty_slot_exactly_while_dirty() {
    let mut slot = DirtySlot { held: false };
    assert_eq!(slot.finish_logic(true, true), 0);
    assert!(slot.held);
    assert_eq!(slot.finish_logic(true, false), 0);
    assert!(slot.refresh_dirty(false));
    assert!(!slot.held);
    assert_eq!(slot.finish_logic(false, true), 1);
    assert!(!slot.held);
    let mut dirty = DirtySlot { held: true };
    assert_eq!(dirty.finish_logic(false, false), 1);
    assert!(!dirty.refresh_dirty(false));
}

#[test]
fn the_dirty_registry_reports_the_oldest_dirty_player() {
    let mut registry = DirtyRegistry::new();
    assert_eq!(registry.oldest_dirty_age(100), 0);
    registry.mark_dirty(1, true, 40);
    registry.mark_dirty(2, true, 10);
    registry.mark_dirty(2, true, 70);
    assert_eq!(registry.dirty_players(), 2);
    assert_eq!(registry.oldest_dirty_age(100), 90);
    assert_eq!(registry.oldest_dirty_age(5), 0);
    registry.mark_dirty(2, false, 80);
    assert_eq!(registry.dirty_players(), 1);
    assert_eq!(registry.oldest_dirty_age(100), 60);
    registry.mark_dirty(1, false, 90);
    registry.mark_dirty(3, false, 90);
    assert_eq!(registry.dirty_players(), 0);
}

#[test]
fn calls_of_one_player_run_one_at_a_time_in_order() {
    let mut runtime: RuntimeCore<u32> = RuntimeCore::new(LogicConfig::hard_limits());
    assert_eq!(runtime.enqueue(7, 1, 1), Ok(true));
    for payload in 2..=32u32 {
        assert_eq!(runtime.enqueue(7, 1, payload), Ok(false));
    }
    assert_eq!(runtime.counters().accepted, 32);
    assert_eq!(runtime.counters().queued, 32);
    assert_eq!(runtime.inflight_calls(), 32);
    assert_eq!(runtime.active_gids(), 1);
    assert_eq!(runtime.start_runner(7), 1);
    for payload in 2..=32u32 {
        assert_eq!(runtime.finish(7), Some(payload));
    }
    assert_eq!(runtime.finish(7), None);
    assert_eq!(runtime.retire(7), None);
    assert_eq!(runtime.counters().completed, 32);
    assert_eq!(runtime.counters().queued, 0);
    assert_eq!(runtime.inflight_calls(), 0);
    assert_eq!(runtime.inflight_kib(), 0);
    assert_eq!(runtime.active_gids(), 0);
}
