use std::sync::Arc;
use xkk_server::run::{batches, gid_order, RunAction, RunCall, RunEvent, RunStage};
use xkk_server::runtime::{CacheFailure, DirtySlot, LogicCallError, LogicConfig, RuntimeCore};

fn runtime_core(max_dirty_players: usize) -> RuntimeCore<u32> {
    RuntimeCore::new(LogicConfig { max_dirty_players, ..LogicConfig::hard_limits() })
}

#[test]
fn a_call_that_dirties_its_player_saves_before_completing() {
    let mut core = runtime_core(4);
    let (mut call, action) = RunCall::begin::<String>(false);
    assert!(matches!(action, RunAction::Load));
    let action = call.step(&mut core, RunEvent::<String>::Loaded { fresh: true, result: Ok(DirtySlot { held: false }) });
    assert!(matches!(action, RunAction::RunLogic));
    assert!(call.reserved);
    assert_eq!(core.dirty_slots(), 1);
    let action = call.step(&mut core, RunEvent::<String>::Ran { dirty: true });
    assert!(matches!(action, RunAction::Save));
    assert!(call.slot.held);
    assert_eq!(core.dirty_slots(), 1);
    let action = call.step(&mut core, RunEvent::Saved { result: Err(Arc::new("disk".to_string())), still_dirty: false });
    match action {
        RunAction::Complete(Err(error)) => assert_eq!(error.as_str(), "disk"),
        _ => panic!("expected the save outcome"),
    }
    assert_eq!(call.stage, RunStage::Done);
    assert!(!call.slot.held);
    assert_eq!(core.dirty_slots(), 0);
    assert_eq!((core.counters().save_calls, core.counters().save_failed), (1, 1));
}

#[test]
fn a_clean_call_completes_without_saving_and_gives_its_reservation_back() {
    let mut core = runtime_core(4);
    let (mut call, _) = RunCall::begin::<String>(false);
    call.step(&mut core, RunEvent::<String>::Loaded { fresh: true, result: Ok(DirtySlot { held: false }) });
    let action = call.step(&mut core, RunEvent::<String>::Ran { dirty: false });
    assert!(matches!(action, RunAction::Complete(Ok(()))));
    assert_eq!(core.dirty_slots(), 0);
}

#[test]
fn no_free_dirty_slot_fails_the_call_before_its_logic() {
    let mut core = runtime_core(1);
    assert!(core.reserve_dirty());
    let (mut call, _) = RunCall::begin::<String>(false);
    let action = call.step(&mut core, RunEvent::<String>::Loaded { fresh: true, result: Ok(DirtySlot { held: false }) });
    assert!(matches!(action, RunAction::Fail(LogicCallError::DirtyCapacity)));
    assert_eq!(call.stage, RunStage::Done);
    assert_eq!(core.counters().rejected_dirty, 1);
    assert_eq!(core.dirty_slots(), 1);
}

#[test]
fn a_player_that_holds_a_slot_needs_no_reservation() {
    let mut core = runtime_core(1);
    assert!(core.reserve_dirty());
    let (mut call, _) = RunCall::begin::<String>(false);
    let action = call.step(&mut core, RunEvent::<String>::Loaded { fresh: false, result: Ok(DirtySlot { held: true }) });
    assert!(matches!(action, RunAction::RunLogic));
    assert!(!call.reserved);
    let action = call.step(&mut core, RunEvent::<String>::Ran { dirty: true });
    assert!(matches!(action, RunAction::Save));
    let action = call.step(&mut core, RunEvent::<String>::Saved { result: Ok(()), still_dirty: true });
    assert!(matches!(action, RunAction::Complete(Ok(()))));
    assert!(call.slot.held);
    assert_eq!(core.dirty_slots(), 1);
}

#[test]
fn a_failed_load_or_preload_fails_the_call() {
    let mut core = runtime_core(4);
    let (mut call, _) = RunCall::begin::<String>(false);
    let action = call.step(&mut core, RunEvent::Loaded { fresh: true, result: Err(CacheFailure::Load(Arc::new("gone".to_string()))) });
    assert!(matches!(action, RunAction::Fail(LogicCallError::Load(_))));

    let (mut call, _) = RunCall::begin::<String>(true);
    let action = call.step(&mut core, RunEvent::<String>::Loaded { fresh: true, result: Ok(DirtySlot { held: false }) });
    assert!(matches!(action, RunAction::Preload));
    assert_eq!(core.dirty_slots(), 1);
    let action = call.step(&mut core, RunEvent::Preloaded(Err(Arc::new("kick".to_string()))));
    assert!(matches!(action, RunAction::Fail(LogicCallError::Preload(_))));
    assert_eq!(core.dirty_slots(), 0);
    let counters = core.counters();
    assert_eq!((counters.load_calls, counters.load_failed), (2, 1));
    assert_eq!((counters.preload_calls, counters.preload_failed), (1, 1));
}

#[test]
fn an_event_out_of_turn_repeats_the_pending_action() {
    let mut core = runtime_core(4);
    let (mut call, _) = RunCall::begin::<String>(true);
    let action = call.step(&mut core, RunEvent::<String>::Ran { dirty: true });
    assert!(matches!(action, RunAction::Load));
    assert_eq!(call.stage, RunStage::Loading);
}

#[test]
fn a_flush_saves_dirty_players_in_gid_order_and_in_batches() {
    let ordered = gid_order(vec![9, -3, 4, 9, 1]);
    assert_eq!(ordered, vec![-3, 1, 4, 9, 9]);
    assert_eq!(batches(&ordered, 2), vec![vec![-3, 1], vec![4, 9], vec![9]]);
    assert_eq!(batches(&ordered, 5), vec![ordered.clone()]);
    assert!(batches(&Vec::new(), 3).is_empty());
}
