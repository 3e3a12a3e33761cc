use xkk_server::gate::online_verified;
use xkk_server::gate::{packet_handling, ClientMessage, PacketHandling};
use xkk_server::gate::{GateLogin, LogicReply, LoginAction, LoginEvent, LoginStage, OnlineRecord};
use xkk_server::player::{Item, PlayerProfile};
use xkk_server::gate::{
    kick_outcome, logic_choice, logic_owner_rejection, request_error_status,
    resume_error_status, target_server, usable_owner, valid_kick_target, valid_login_request,
    valid_reconnect_request, LogicChoice, LogicInstance, RouteTarget,
};
use xkk_server::session::{RequestError, ResumeError, Routes};
use xkk_server::status::StatusCode;

#[test]
fn login_requests_are_checked_by_the_gate() {
    assert!(valid_login_request(false, 7, "t", "12345678", 1));
    assert!(!valid_login_request(true, 7, "t", "12345678", 1));
    assert!(!valid_login_request(false, 7, "", "12345678", 1));
    assert!(!valid_login_request(false, 7, "t", "1234567", 1));
    assert!(!valid_login_request(false, 7, "t", "12345678", 0));
    assert!(valid_reconnect_request(false, 7, 3, "t", "12345678", 4, 4, 1));
    assert!(!valid_reconnect_request(false, 7, 3, "t", "12345678", 4, 5, 1));
    assert!(!valid_reconnect_request(false, 7, 0, "t", "12345678", 4, 4, 1));
}

#[test]
fn refusals_have_fixed_statuses() {
    assert_eq!(resume_error_status(ResumeError::RateLimited).code, StatusCode::RateLimited);
    let gap = resume_error_status(ResumeError::OutboxGap);
    assert_eq!(gap.code, StatusCode::ResumeExpired);
    assert_eq!(gap.message, "resume state expired");
    assert_eq!(request_error_status(RequestError::RateLimited).unwrap().message, "request rate exceeded");
    assert!(request_error_status(RequestError::InvalidSequence).is_none());
    let routes = Routes { logic_id: 3, public_id: 4 };
    assert!(logic_owner_rejection(3, routes).is_none());
    assert_eq!(logic_owner_rejection(5, routes).unwrap().message, "Logic ownership changed");
}

#[test]
fn kicks_decrement_only_for_online_sessions() {
    assert!(!valid_kick_target(0, 1));
    assert!(valid_kick_target(1, 1));
    let online = kick_outcome(Some(true));
    assert!(online.decrement_online && online.clear_online && online.kicked);
    let offline = kick_outcome(Some(false));
    assert!(!offline.decrement_online && offline.kicked);
    let missing = kick_outcome(None);
    assert!(!missing.clear_online && !missing.kicked);
}

#[test]
fn logins_return_to_their_owning_logic() {
    assert_eq!(logic_choice(0), LogicChoice::LeastLoaded);
    assert_eq!(logic_choice(9), LogicChoice::Owner(9));
    let owner = LogicInstance { instance_id: 9, enable: true, healthy: true, connected: true };
    assert_eq!(usable_owner(owner), Some(9));
    assert_eq!(usable_owner(LogicInstance { connected: false, ..owner }), None);
    let routes = Routes { logic_id: 3, public_id: 4 };
    assert_eq!(target_server(routes, RouteTarget::Logic), 3);
    assert_eq!(target_server(routes, RouteTarget::Public), 4);
}

#[test]
fn online_records_must_hold_the_presented_token() {
    assert!(online_verified(Some(7), 7, Some((7, "tok")), "tok"));
    assert!(!online_verified(Some(8), 7, Some((7, "tok")), "tok"));
    assert!(!online_verified(Some(7), 7, Some((7, "old")), "tok"));
    assert!(!online_verified(Some(7), 7, Some((9, "tok")), "tok"));
    assert!(!online_verified(Some(7), 7, None, "tok"));
    assert!(!online_verified(None, 7, Some((7, "tok")), "tok"));
}

fn record(logic_id: i32) -> OnlineRecord {
    OnlineRecord { gid: 7, token: "tok".to_string(), logic_id }
}

#[test]
fn a_login_goes_through_logic_public_and_the_session_store() {
    let (mut login, action) = GateLogin::begin(false, true, 7, "tok".to_string());
    assert!(matches!(action, LoginAction::DecodeToken));
    assert!(matches!(login.step(LoginEvent::TokenDecoded(Some(7))), LoginAction::LoadOnline));
    assert!(matches!(login.step(LoginEvent::OnlineLoaded(Some(record(0)))), LoginAction::PickLeastLoadedLogic));
    assert!(matches!(login.step(LoginEvent::LogicPicked(Some(3))), LoginAction::PickPublic));
    assert!(matches!(
        login.step(LoginEvent::PublicPicked(Some(4))),
        LoginAction::CallLogic { logic_id: 3, reconnect: false }
    ));
    let reply = LogicReply {
        status: Some(xkk_server::status::Status::ok()),
        player: Some(PlayerProfile { gid: 7, name: "Ann".to_string(), level: 3, icon: 1, exp: 9 }),
        items: vec![Item { item_id: 5, count: 2, change: 0 }],
    };
    assert!(matches!(login.step(LoginEvent::LogicAnswered(Some(reply))), LoginAction::Bind));
    let routes = Routes { logic_id: 3, public_id: 4 };
    assert!(matches!(login.step(LoginEvent::Bound(true)), LoginAction::Install(r) if r == routes));
    assert!(matches!(
        login.step(LoginEvent::Installed(true)),
        LoginAction::SaveOnline { logic_id: 3, public_id: 4 }
    ));
    match login.step(LoginEvent::OnlineSaved(true)) {
        LoginAction::Respond { routes: r, player, items } => {
            assert_eq!(r, routes);
            assert_eq!(player.unwrap().name, "Ann");
            assert_eq!(items, vec![Item { item_id: 5, count: 2, change: 0 }]);
        }
        other => panic!("unexpected action {other:?}"),
    }
    assert_eq!(login.stage, LoginStage::Done);
}

#[test]
fn a_login_returns_to_its_owner_or_is_rejected() {
    let (mut login, _) = GateLogin::begin(false, true, 7, "tok".to_string());
    login.step(LoginEvent::TokenDecoded(Some(7)));
    assert!(matches!(login.step(LoginEvent::OnlineLoaded(Some(record(9)))), LoginAction::LookUpLogic(9)));
    let down = LogicInstance { instance_id: 9, enable: true, healthy: false, connected: true };
    match login.step(LoginEvent::LogicLookedUp(Some(down))) {
        LoginAction::Reject(status) => assert_eq!(status.message, "Logic unavailable"),
        other => panic!("unexpected action {other:?}"),
    }

    let (mut stolen, _) = GateLogin::begin(false, true, 7, "tok".to_string());
    match stolen.step(LoginEvent::TokenDecoded(Some(8))) {
        LoginAction::Reject(status) => assert_eq!(status.code, StatusCode::Unauthenticated),
        other => panic!("unexpected action {other:?}"),
    }

    let (_, invalid) = GateLogin::begin(true, false, 7, "tok".to_string());
    match invalid {
        LoginAction::Reject(status) => assert_eq!(status.message, "invalid reconnect request"),
        other => panic!("unexpected action {other:?}"),
    }
}

#[test]
fn a_reconnect_keeps_its_logic_and_replays() {
    let routes = Routes { logic_id: 3, public_id: 4 };
    let (mut again, _) = GateLogin::begin(true, true, 7, "tok".to_string());
    again.step(LoginEvent::TokenDecoded(Some(7)));
    assert!(matches!(again.step(LoginEvent::OnlineLoaded(Some(record(3)))), LoginAction::Authorize));
    assert!(matches!(
        again.step(LoginEvent::Authorized(Ok(routes))),
        LoginAction::CallLogic { logic_id: 3, reconnect: true }
    ));
    match again.step(LoginEvent::LogicAnswered(None)) {
        LoginAction::Reject(status) => assert_eq!(status.message, "Logic reconnect failed"),
        other => panic!("unexpected action {other:?}"),
    }

    let (mut moved, _) = GateLogin::begin(true, true, 7, "tok".to_string());
    moved.step(LoginEvent::TokenDecoded(Some(7)));
    moved.step(LoginEvent::OnlineLoaded(Some(record(5))));
    match moved.step(LoginEvent::Authorized(Ok(routes))) {
        LoginAction::Reject(status) => assert_eq!(status.message, "Logic ownership changed"),
        other => panic!("unexpected action {other:?}"),
    }

    let (mut full, _) = GateLogin::begin(true, true, 7, "tok".to_string());
    full.step(LoginEvent::TokenDecoded(Some(7)));
    full.step(LoginEvent::OnlineLoaded(Some(record(3))));
    full.step(LoginEvent::Authorized(Ok(routes)));
    full.step(LoginEvent::LogicAnswered(Some(LogicReply {
        status: Some(xkk_server::status::Status::ok()),
        player: None,
        items: Vec::new(),
    })));
    full.step(LoginEvent::Bound(true));
    full.step(LoginEvent::Installed(true));
    assert!(matches!(full.step(LoginEvent::OnlineSaved(true)), LoginAction::Replay));
    match full.step(LoginEvent::Replayed(false)) {
        LoginAction::KickLocal(status) => assert_eq!(status.message, "replay queue full"),
        other => panic!("unexpected action {other:?}"),
    }
}

#[test]
fn packets_are_dispatched_by_message() {
    assert_eq!(packet_handling(Some(ClientMessage::AckNtf)), PacketHandling::Acknowledge);
    assert_eq!(packet_handling(Some(ClientMessage::PingReq)), PacketHandling::Ping);
    assert_eq!(packet_handling(Some(ClientMessage::LoginReq)), PacketHandling::Login);
    assert_eq!(packet_handling(Some(ClientMessage::ReconnectReq)), PacketHandling::Reconnect);
    assert_eq!(packet_handling(Some(ClientMessage::LogoutReq)), PacketHandling::Logout);
    assert_eq!(
        packet_handling(Some(ClientMessage::UseItemReq)),
        PacketHandling::Forward(RouteTarget::Logic)
    );
    assert_eq!(
        packet_handling(Some(ClientMessage::MailClaimReq)),
        PacketHandling::Forward(RouteTarget::Public)
    );
    assert_eq!(packet_handling(Some(ClientMessage::NotARequest)), PacketHandling::Close);
    assert_eq!(packet_handling(None), PacketHandling::Close);
}
