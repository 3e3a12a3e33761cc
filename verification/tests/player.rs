use xkk_server::persistence::{LogicState, Persistence};
use xkk_server::player::{
    call_status, decrement_online, default_player, normalize_player, reject_status,
    retained_kib, session_to_kick, settle_call, valid_context_gid, valid_item_request,
    valid_item_route, valid_logic_login, Item, PlayerProfile, PlayerSession, PlayerState,
};
use xkk_server::player::{finish_login, LogicLoginAction, LogicLoginEvent, LogicLoginFlow};
use xkk_server::runtime::{Completed, LogicCallError, RejectReason};
use xkk_server::status::StatusCode;

fn item(item_id: i32, count: i64) -> Item {
    Item { item_id, count, change: 0 }
}

#[test]
fn item_changes_are_aggregated_before_mutation() {
    let mut player = PlayerState::new(default_player(7));
    let response = player.add_items(vec![item(1, 2), item(1, 3)]);
    assert_eq!(response.status.code, StatusCode::Success);
    assert_eq!(player.data.items[&1], 5);
    assert!(player.dirty);
}

#[test]
fn remove_items_is_all_or_nothing() {
    let mut player = PlayerState::new(default_player(7));
    player.data.items.insert(1, 5);
    let response = player.remove_items(vec![item(1, 3), item(2, 1)]);
    assert_eq!(response.status.code, StatusCode::InsufficientItems);
    assert_eq!(player.data.items[&1], 5);
    assert!(!player.dirty);
}

#[test]
fn removing_what_was_added_restores_the_inventory() {
    let mut player = PlayerState::new(default_player(7));
    player.data.items.insert(1, 4);
    let request = vec![item(1, 2), item(3, 6), item(1, 1)];
    let added = player.add_items(request.clone());
    assert_eq!(added.status.code, StatusCode::Success);
    assert_eq!(added.items, vec![Item { item_id: 1, count: 7, change: 3 }, Item { item_id: 3, count: 6, change: 6 }]);
    let removed = player.remove_items(request);
    assert_eq!(removed.status.code, StatusCode::Success);
    assert_eq!(removed.items, vec![Item { item_id: 1, count: 4, change: -3 }, Item { item_id: 3, count: 0, change: -6 }]);
    assert_eq!(player.data.items.len(), 1);
    assert_eq!(player.data.items[&1], 4);
}

#[test]
fn add_items_stops_at_the_first_overflow() {
    let mut player = PlayerState::new(default_player(7));
    player.data.items.insert(2, i64::MAX);
    let response = player.add_items(vec![item(1, 5), item(2, 1), item(3, 1)]);
    assert_eq!(response.status.code, StatusCode::Conflict);
    assert_eq!(response.status.message, "item count overflow");
    assert!(response.items.is_empty());
    assert_eq!(player.data.items[&1], 5);
    assert_eq!(player.data.items[&2], i64::MAX);
    assert!(!player.data.items.contains_key(&3));
    assert!(!player.dirty);
}

#[test]
fn invalid_item_requests_are_refused() {
    let mut player = PlayerState::new(default_player(7));
    assert_eq!(player.add_items(Vec::new()).status.code, StatusCode::InvalidArgument);
    assert_eq!(player.remove_items(vec![item(0, 1)]).status.code, StatusCode::InvalidArgument);
    let check = player.check_items(vec![item(1, -1)]);
    assert_eq!(check.status.code, StatusCode::InvalidArgument);
    assert!(!check.enough);
    assert!(!valid_item_request(&vec![item(1, 1), item(2, 0)]));
    assert!(valid_item_request(&vec![item(1, 1)]));
}

#[test]
fn use_item_counts_down_and_removes_empty_stacks() {
    let mut player = PlayerState::new(default_player(7));
    player.data.items.insert(4, 3);
    let short = player.use_item(4, 5);
    assert_eq!(short.status.code, StatusCode::InsufficientItems);
    assert_eq!(short.item, Some(Item { item_id: 4, count: 3, change: 0 }));
    assert!(!player.dirty);
    let used = player.use_item(4, 2);
    assert_eq!(used.item, Some(Item { item_id: 4, count: 1, change: -2 }));
    let last = player.use_item(4, 1);
    assert_eq!(last.item, Some(Item { item_id: 4, count: 0, change: -1 }));
    assert!(!player.data.items.contains_key(&4));
    assert!(player.is_dirty());
    assert_eq!(player.use_item(-1, 1).status.code, StatusCode::InvalidArgument);
}

#[test]
fn check_items_sums_counts_by_item() {
    let mut player = PlayerState::new(default_player(7));
    player.data.items.insert(1, 5);
    assert!(player.check_items(vec![item(1, 2), item(1, 3)]).enough);
    assert!(!player.check_items(vec![item(1, 3), item(1, 3)]).enough);
    assert!(!player.dirty);
}

#[test]
fn items_are_listed_by_item_id() {
    let mut player = PlayerState::new(default_player(7));
    player.data.items.insert(9, 1);
    player.data.items.insert(2, 5);
    player.data.items.insert(5, 3);
    let ids: Vec<i32> = player.items().iter().map(|i| i.item_id).collect();
    assert_eq!(ids, vec![2, 5, 9]);
    let info = player.player_info();
    assert_eq!(info.items.len(), 3);
    assert_eq!(info.player.unwrap().name, "Player7");
}

#[test]
fn login_and_disconnect_track_the_bound_session() {
    let mut player = PlayerState::new(default_player(7));
    let first = player.login(3, 100);
    assert!(first.became_online);
    let second = player.login(4, 101);
    assert!(!second.became_online);
    assert!(!player.disconnect(3, 100));
    assert_eq!(player.session, Some(PlayerSession { gate_id: 4, session_id: 101 }));
    assert!(player.disconnect(4, 101));
    assert_eq!(player.session, None);
}

#[test]
fn default_players_are_named_after_their_id() {
    let data = default_player(-42);
    let profile = data.profile.unwrap();
    assert_eq!(profile.name, "Player-42");
    assert_eq!(profile.level, 1);
    assert!(data.items.is_empty());
    assert_eq!(default_player(0).profile.unwrap().name, "Player0");
    assert_eq!(default_player(1_234_567_890).profile.unwrap().name, "Player1234567890");
    assert_eq!(default_player(i64::MIN).profile.unwrap().name, "Player-9223372036854775808");
    assert_eq!(default_player(i64::MAX).profile.unwrap().name, "Player9223372036854775807");
}

#[test]
fn loaded_players_take_the_id_they_were_loaded_under() {
    let mut data = default_player(1);
    data.profile = Some(PlayerProfile { gid: 1, name: "Ann".to_string(), level: 9, icon: 2, exp: 3 });
    normalize_player(8, &mut data);
    assert_eq!(data.gid, 8);
    let profile = data.profile.as_ref().unwrap();
    assert_eq!((profile.gid, profile.name.as_str(), profile.level), (8, "Ann", 9));
    data.profile = None;
    normalize_player(9, &mut data);
    assert_eq!(data.profile.unwrap().name, "Player9");
}

#[test]
fn online_count_never_goes_below_zero() {
    assert_eq!(decrement_online(3), 2);
    assert_eq!(decrement_online(0), 0);
    assert_eq!(decrement_online(-5), 0);
}

#[test]
fn retained_kib_rounds_up_to_whole_kib() {
    assert_eq!(retained_kib(0), 1);
    assert_eq!(retained_kib(1), 1);
    assert_eq!(retained_kib(1024), 1);
    assert_eq!(retained_kib(1025), 2);
    assert_eq!(retained_kib(4096), 4);
}

#[test]
fn routes_must_name_the_player() {
    assert_eq!(valid_context_gid(7, 1), Some(7));
    assert_eq!(valid_context_gid(0, 1), None);
    assert_eq!(valid_context_gid(7, 0), None);
    assert_eq!(valid_context_gid(u64::MAX, 1), None);
    assert!(valid_item_route(7, 0));
    assert!(valid_item_route(7, 7));
    assert!(!valid_item_route(7, 8));
    assert!(!valid_item_route(0, 0));
    assert!(valid_logic_login(7, 2, 3, 7, 3));
    assert!(!valid_logic_login(7, 2, 3, 7, 4));
}

#[test]
fn a_fresh_login_kicks_a_session_elsewhere() {
    let old = PlayerSession { gate_id: 1, session_id: 10 };
    assert_eq!(session_to_kick(Some(old), false, 2, 11), Some(old));
    assert_eq!(session_to_kick(Some(old), true, 2, 11), None);
    assert_eq!(session_to_kick(Some(old), false, 1, 10), None);
    assert_eq!(session_to_kick(None, false, 1, 10), None);
}

#[test]
fn runtime_outcomes_map_to_statuses() {
    let calls = reject_status(RejectReason::Calls);
    assert_eq!(calls.code, StatusCode::Overloaded);
    assert_eq!(calls.message, "Logic call capacity exhausted");
    assert_eq!(reject_status(RejectReason::Draining).message, "Logic is draining");
    let stopped = call_status::<String>(&LogicCallError::RuntimeStopped, "");
    assert_eq!(stopped.code, StatusCode::TemporarilyUnavailable);
    let load = call_status(&LogicCallError::Load(std::sync::Arc::new("x".to_string())), "disk down");
    assert_eq!(load.code, StatusCode::Internal);
    assert_eq!(load.message, "logic player load failed: disk down");
    let saved: Result<i32, _> = settle_call::<i32, String>(Ok(Completed { value: 4, persistence: Ok(()) }), "");
    assert_eq!(saved.unwrap(), 4);
    let unsaved = settle_call::<i32, String>(
        Ok(Completed { value: 4, persistence: Err(std::sync::Arc::new("x".to_string())) }),
        "save failed",
    );
    let status = unsaved.unwrap_err();
    assert_eq!(status.code, StatusCode::Internal);
    assert_eq!(status.message, "save failed");
    let dirty = settle_call::<i32, String>(Err(LogicCallError::DirtyCapacity), "");
    assert_eq!(dirty.unwrap_err().code, StatusCode::Overloaded);
}

#[test]
fn storage_keeps_its_loader_and_savers() {
    let storage: Persistence<u8, u8, u32> = Persistence::new(1u8, 2u8);
    assert!(storage.batch_saver.is_none());
    let storage = storage.with_batch_saver(3u16);
    assert_eq!((storage.loader, storage.saver, storage.batch_saver), (1, 2, Some(3)));
}

#[test]
fn a_logic_login_records_its_owner() {
    let (mut flow, action) = LogicLoginFlow::begin(7, 2, 30, false, 7, 30);
    assert!(matches!(action, LogicLoginAction::RunLogin));
    let mut player = PlayerState::new(default_player(7));
    let mut result = player.login(2, 30);
    finish_login(&mut result, Some(PlayerSession { gate_id: 1, session_id: 29 }), 5);
    assert!(matches!(
        flow.step(LogicLoginEvent::LoginRan(Ok(result))),
        LogicLoginAction::SaveOwner { count_online: true }
    ));
    match flow.step(LogicLoginEvent::OwnerSaved(true)) {
        LogicLoginAction::Answer { response, uncount_online } => {
            assert!(!uncount_online);
            assert_eq!(response.status.code, StatusCode::Success);
            assert_eq!((response.logic_id, response.old_gate_id, response.old_player_session), (5, 1, 29));
        }
        other => panic!("unexpected action {other:?}"),
    }
}

#[test]
fn a_logic_login_is_undone_when_the_owner_is_not_saved() {
    let (_, refused) = LogicLoginFlow::begin(7, 2, 30, false, 8, 30);
    match refused {
        LogicLoginAction::Answer { response, .. } => assert_eq!(response.status.message, "invalid Logic login"),
        other => panic!("unexpected action {other:?}"),
    }
    let (mut flow, _) = LogicLoginFlow::begin(7, 2, 30, true, 7, 30);
    let mut player = PlayerState::new(default_player(7));
    let result = player.login(2, 30);
    flow.step(LogicLoginEvent::LoginRan(Ok(result)));
    assert!(matches!(flow.step(LogicLoginEvent::OwnerSaved(false)), LogicLoginAction::Disconnect));
    match flow.step(LogicLoginEvent::Disconnected(true)) {
        LogicLoginAction::Answer { response, uncount_online } => {
            assert!(uncount_online);
            assert_eq!(response.status.code, StatusCode::Internal);
            assert_eq!(response.status.message, "Logic owner save failed");
        }
        other => panic!("unexpected action {other:?}"),
    }
}

#[test]
fn a_disconnect_names_player_gate_and_session() {
    assert!(xkk_server::player::valid_disconnect(7, 2, 30));
    assert!(!xkk_server::player::valid_disconnect(0, 2, 30));
    assert!(!xkk_server::player::valid_disconnect(7, 0, 30));
    assert!(!xkk_server::player::valid_disconnect(7, 2, 0));
}

#[test]
fn item_requests_whose_totals_overflow_are_told_apart() {
    let fits = vec![Item { item_id: 1, count: i64::MAX - 1, change: 0 }, Item { item_id: 1, count: 1, change: 0 }];
    assert!(xkk_server::player::item_totals_fit(&fits));
    let over = vec![Item { item_id: 1, count: i64::MAX, change: 0 }, Item { item_id: 1, count: 1, change: 0 }];
    assert!(!xkk_server::player::item_totals_fit(&over));
    let apart = vec![Item { item_id: 1, count: i64::MAX, change: 0 }, Item { item_id: 2, count: i64::MAX, change: 0 }];
    assert!(xkk_server::player::item_totals_fit(&apart));
}
