use xkk_server::auth::{AccountLogin, LoginAction, LoginEvent, RoleAction, RoleEvent, RoleFlow, RoleStage};
use xkk_server::auth::{admission_step, credential_status, login_role, new_account, online_token_status, token_status, AccountData, AdmissionStep};
use xkk_server::auth::{
    available_gate_capacity, gate_endpoints, login_limit_status, login_rejection, parse_port,
    queue_decision, queue_full_status, role_request_rejection, waiting_in_queue, GateLoad,
    GateMetadata, QueueDecision,
};
use xkk_server::status::StatusCode;

fn gate() -> GateMetadata {
    GateMetadata {
        host: "gate.example".to_string(),
        tcp_port: Some("3201".to_string()),
        kcp_port: Some("3202".to_string()),
        websocket_port: Some("3203".to_string()),
        websocket_path: Some("/ws".to_string()),
    }
}

#[test]
fn api_gate_endpoints_include_every_advertised_transport() {
    let endpoints = gate_endpoints(&gate());

    assert_eq!(endpoints.len(), 3);
    assert_eq!(endpoints[2].path, "/ws");
}

#[test]
fn lib_gate_endpoints_include_every_advertised_transport() {
    let endpoints = gate_endpoints(&gate());

    assert_eq!(endpoints.len(), 3);
    assert_eq!(endpoints[2].path, "/ws");
}

#[test]
fn endpoints_skip_transports_without_a_valid_port() {
    let metadata = GateMetadata {
        kcp_port: Some("99999999999".to_string()),
        websocket_path: None,
        ..gate()
    };
    let endpoints = gate_endpoints(&metadata);
    assert_eq!(endpoints.len(), 2);
    assert_eq!((endpoints[0].transport.as_str(), endpoints[0].port), ("tcp", 3201));
    assert_eq!(endpoints[0].path, "");
    assert_eq!(endpoints[0].host, "gate.example");
    assert_eq!((endpoints[1].transport.as_str(), endpoints[1].path.as_str()), ("websocket", "/"));
}

#[test]
fn ports_parse_as_std_parses_u32() {
    for text in ["0", "+7", "007", "4294967295", "", "+", "-1", "4294967296", "1a", " 1"] {
        assert_eq!(parse_port(text), text.parse::<u32>().ok(), "{text}");
    }
}

#[test]
fn login_requests_are_checked() {
    assert_eq!(login_rejection("a", "b", None).unwrap().message, "device is required");
    assert!(login_rejection("a", "b", Some("12345678")).is_none());
    let short = login_rejection("a", "b", Some("1234567")).unwrap();
    assert_eq!(short.code, StatusCode::InvalidArgument);
    assert_eq!(short.message, "invalid Auth login request");
    assert!(login_rejection(&"a".repeat(65), "b", Some("12345678")).is_some());
    assert!(login_rejection("a", "", Some("12345678")).is_some());
    assert!(role_request_rejection(1, "t", "12345678").is_none());
    assert_eq!(role_request_rejection(0, "t", "12345678").unwrap().message, "invalid role request");
}

#[test]
fn a_failed_limiter_wins_over_a_refusal() {
    assert!(login_limit_status(Some(true), Some(true)).is_none());
    assert_eq!(login_limit_status(Some(false), Some(true)).unwrap().code, StatusCode::RateLimited);
    assert_eq!(login_limit_status(Some(false), None).unwrap().code, StatusCode::Internal);
    assert_eq!(login_limit_status(None, Some(true)).unwrap().message, "login limiter failed");
}

#[test]
fn only_enabled_healthy_gates_count_their_room() {
    let gates = vec![
        GateLoad { enable: true, healthy: true, online_count: 10 },
        GateLoad { enable: true, healthy: false, online_count: 0 },
        GateLoad { enable: false, healthy: true, online_count: 0 },
        GateLoad { enable: true, healthy: true, online_count: 150 },
        GateLoad { enable: true, healthy: true, online_count: 99 },
    ];
    assert_eq!(available_gate_capacity(&gates, 100), 91);
    assert_eq!(available_gate_capacity(&Vec::new(), 100), 0);
}

#[test]
fn the_login_queue_decides_wait_admit_or_full() {
    assert_eq!(queue_decision(11, 10, 100), QueueDecision::Full);
    assert_eq!(queue_decision(5, 10, 0), QueueDecision::Wait);
    assert_eq!(queue_decision(5, 10, 4), QueueDecision::Wait);
    assert_eq!(queue_decision(5, 10, 5), QueueDecision::Admit);
    assert_eq!(queue_full_status().message, "login queue is full");
    let queue = waiting_in_queue(3, 1_000, 5);
    assert_eq!((queue.position, queue.next_request_time), (3, 1_005));
}

#[test]
fn first_logins_create_one_default_role() {
    let account = new_account("ann", "h1".to_string(), 42, 1_700);
    assert_eq!(account.account, "ann");
    assert_eq!(account.roles.len(), 1);
    assert_eq!(account.roles[0].name, "Player42");
    assert_eq!((account.roles[0].gid, account.roles[0].level, account.created_at), (42, 1, 1_700));
    assert_eq!(login_role(&account).unwrap(), 42);
    assert!(credential_status(&"h1".to_string(), &"h1".to_string()).is_none());
    let mismatch = credential_status(&"h1".to_string(), &"h2".to_string()).unwrap();
    assert_eq!(mismatch.code, StatusCode::Unauthenticated);
    assert_eq!(mismatch.message, "credential mismatch");
    let empty = AccountData { roles: Vec::new(), ..account };
    assert_eq!(login_role(&empty).unwrap_err().message, "account has no role");
}

#[test]
fn role_tokens_must_match_the_player_and_its_online_record() {
    assert!(token_status(Some(7), 7).is_none());
    assert_eq!(token_status(Some(8), 7).unwrap().message, "token verification failed");
    assert!(token_status(None, 7).is_some());
    assert!(online_token_status(Some("tok"), "tok").is_none());
    assert_eq!(online_token_status(Some("old"), "tok").unwrap().message, "token state mismatch");
    assert!(online_token_status(None, "tok").is_some());
    assert_eq!(admission_step(Some(true)), AdmissionStep::Proceed);
    assert_eq!(admission_step(Some(false)), AdmissionStep::Queue);
    assert_eq!(admission_step(None), AdmissionStep::Failed);
}

fn role_flow(queue_capacity: i64) -> (RoleFlow, RoleAction) {
    RoleFlow::begin(7, "tok".to_string(), "12345678", 100, queue_capacity, 5)
}

#[test]
fn a_role_request_is_admitted_to_a_gate() {
    let (mut flow, action) = role_flow(10);
    assert!(matches!(action, RoleAction::DecodeToken));
    assert!(matches!(flow.step(RoleEvent::TokenDecoded(Some(7)), 1_000), RoleAction::LoadOnline));
    assert!(matches!(flow.step(RoleEvent::OnlineLoaded(Ok(Some("tok".to_string()))), 1_000), RoleAction::ListGates));
    let gates = vec![GateLoad { enable: true, healthy: true, online_count: 10 }];
    assert!(matches!(flow.step(RoleEvent::GatesListed(Some(gates)), 1_000), RoleAction::EnqueueLogin));
    assert_eq!(flow.available, 90);
    assert!(matches!(flow.step(RoleEvent::Enqueued(Some(3)), 1_000), RoleAction::CheckAdmission));
    assert!(matches!(flow.step(RoleEvent::AdmissionChecked(Some(true)), 1_000), RoleAction::PickGate));
    assert!(matches!(flow.step(RoleEvent::GatePicked(Some(gate())), 1_000), RoleAction::LeaveQueue));
    match flow.step(RoleEvent::QueueLeft, 1_000) {
        RoleAction::Answer(answer) => {
            assert_eq!(answer.status.code, StatusCode::Success);
            assert_eq!(answer.gid, 7);
            assert_eq!(answer.endpoints.len(), 3);
            assert!(answer.queue.is_none());
        }
        other => panic!("unexpected action {other:?}"),
    }
    assert_eq!(flow.stage, RoleStage::Answered);
}

#[test]
fn a_role_request_waits_or_is_refused() {
    let (mut flow, _) = role_flow(10);
    flow.step(RoleEvent::TokenDecoded(Some(7)), 1_000);
    flow.step(RoleEvent::OnlineLoaded(Ok(Some("tok".to_string()))), 1_000);
    flow.step(RoleEvent::GatesListed(Some(vec![GateLoad { enable: true, healthy: true, online_count: 99 }])), 1_000);
    match flow.step(RoleEvent::Enqueued(Some(2)), 1_000) {
        RoleAction::Answer(answer) => {
            assert_eq!(answer.status.code, StatusCode::Success);
            assert_eq!(answer.queue, Some(xkk_server::auth::LoginQueue { position: 2, next_request_time: 1_005 }));
        }
        other => panic!("unexpected action {other:?}"),
    }

    let (mut full, _) = role_flow(1);
    full.step(RoleEvent::TokenDecoded(Some(7)), 1_000);
    full.step(RoleEvent::OnlineLoaded(Ok(Some("tok".to_string()))), 1_000);
    full.step(RoleEvent::GatesListed(Some(Vec::new())), 1_000);
    assert!(matches!(full.step(RoleEvent::Enqueued(Some(2)), 1_000), RoleAction::LeaveQueue));
    match full.step(RoleEvent::QueueLeft, 1_000) {
        RoleAction::Answer(answer) => assert_eq!(answer.status.message, "login queue is full"),
        other => panic!("unexpected action {other:?}"),
    }

    let (mut stale, _) = role_flow(10);
    stale.step(RoleEvent::TokenDecoded(Some(7)), 1_000);
    match stale.step(RoleEvent::OnlineLoaded(Ok(Some("old".to_string()))), 1_000) {
        RoleAction::Answer(answer) => assert_eq!(answer.status.message, "token state mismatch"),
        other => panic!("unexpected action {other:?}"),
    }

    let (invalid, action) = RoleFlow::begin(0, "tok".to_string(), "12345678", 100, 10, 5);
    assert_eq!(invalid.stage, RoleStage::Answered);
    assert!(matches!(action, RoleAction::Answer(_)));
}

#[test]
fn an_unexpected_event_repeats_the_pending_role_action() {
    let (mut flow, _) = role_flow(10);
    assert!(matches!(flow.step(RoleEvent::QueueLeft, 1_000), RoleAction::DecodeToken));
    assert_eq!(flow.stage, RoleStage::DecodingToken);
}

#[test]
fn a_first_login_creates_the_account_and_issues_a_token() {
    let (mut login, action) = AccountLogin::begin("ann", "secret", Some("12345678"), "h1".to_string());
    assert!(matches!(action, LoginAction::CheckLimits));
    assert!(matches!(login.step(LoginEvent::LimitsChecked(Some(true), Some(true))), LoginAction::Lock));
    assert!(matches!(login.step(LoginEvent::Locked(Ok(true))), LoginAction::LoadAccount));
    assert!(matches!(login.step(LoginEvent::AccountLoaded(Ok(None))), LoginAction::AllocateGid));
    match login.step(LoginEvent::GidAllocated(Some(42), 1_700)) {
        LoginAction::CreateAccount(account) => {
            assert_eq!(account.roles[0].name, "Player42");
            assert_eq!(account.created_at, 1_700);
        }
        other => panic!("unexpected action {other:?}"),
    }
    assert!(matches!(login.step(LoginEvent::AccountCreated(true)), LoginAction::Unlock));
    assert!(matches!(login.step(LoginEvent::Unlocked), LoginAction::EncodeToken(42)));
    assert!(matches!(login.step(LoginEvent::TokenEncoded(Some("tok".to_string()))), LoginAction::SaveToken(42)));
    match login.step(LoginEvent::TokenSaved(true)) {
        LoginAction::Answer(answer) => {
            assert_eq!(answer.status.code, StatusCode::Success);
            assert_eq!(answer.account, "ann");
            assert_eq!(answer.token, "tok");
            assert_eq!(answer.roles.len(), 1);
        }
        other => panic!("unexpected action {other:?}"),
    }
}

#[test]
fn a_login_with_the_wrong_credential_is_refused_after_unlocking() {
    let (mut login, _) = AccountLogin::begin("ann", "secret", Some("12345678"), "h2".to_string());
    login.step(LoginEvent::LimitsChecked(Some(true), Some(true)));
    login.step(LoginEvent::Locked(Ok(true)));
    let stored = new_account("ann", "h1".to_string(), 42, 1_700);
    assert!(matches!(login.step(LoginEvent::AccountLoaded(Ok(Some(stored)))), LoginAction::Unlock));
    match login.step(LoginEvent::Unlocked) {
        LoginAction::Answer(answer) => {
            assert_eq!(answer.status.code, StatusCode::Unauthenticated);
            assert_eq!(answer.status.message, "credential mismatch");
        }
        other => panic!("unexpected action {other:?}"),
    }
    let (mut busy, _) = AccountLogin::begin("ann", "secret", Some("12345678"), "h1".to_string());
    busy.step(LoginEvent::LimitsChecked(Some(true), Some(true)));
    match busy.step(LoginEvent::Locked(Ok(false))) {
        LoginAction::Answer(answer) => assert_eq!(answer.status.message, "account login in progress"),
        other => panic!("unexpected action {other:?}"),
    }
    let (_, no_device) = AccountLogin::begin("ann", "secret", None, "h1".to_string());
    match no_device {
        LoginAction::Answer(answer) => assert_eq!(answer.status.message, "device is required"),
        other => panic!("unexpected action {other:?}"),
    }
}
