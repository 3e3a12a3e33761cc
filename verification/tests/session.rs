use std::collections::VecDeque;
use xkk_server::session::{
    seq_after, seq_at_or_after, ClientSession, ClientSessions, ResumeError, RequestError,
    Routes, SendError, SessionConfig, SessionConfigError, StoreStats,
};

fn config() -> SessionConfig {
    SessionConfig { outbox_messages: 2, ..SessionConfig::hard_limits() }
}

fn offline_session(now: u64) -> ClientSession<u32> {
    ClientSession {
        session_id: 11,
        conn: None,
        routes: Routes { logic_id: 1, public_id: 2 },
        server_seq: 0,
        client_seq: 0,
        outbox: VecDeque::with_capacity(2),
        dropped_through: None,
        disconnected_at: Some(now),
        reconnect_count: 0,
        reconnect_times: VecDeque::new(),
        request_times: VecDeque::new(),
    }
}

const SECOND: u64 = 1_000;
const START: u64 = 1_000_000;

#[test]
fn sequence_comparison_wraps_at_u32() {
    assert!(seq_after(1, 0));
    assert!(!seq_after(1, 1));
    assert!(seq_after(0, u32::MAX));
    assert!(!seq_after(u32::MAX, 0));
}

#[test]
fn sequence_half_space_is_not_newer() {
    assert!(seq_after(0x7fff_ffff, 0));
    assert!(!seq_after(0x8000_0000, 0));
    assert!(seq_at_or_after(5, 5));
    assert!(!seq_at_or_after(4, 5));
}

#[test]
fn evicted_unacked_message_makes_old_resume_fail() {
    let now = START;
    let mut session = offline_session(now);
    let cfg = config();
    for payload in [vec![1u8], vec![2u8], vec![3u8]] {
        session.begin_outbound();
        session.retain_outbound(payload, now, cfg);
    }

    assert_eq!(session.outbox.len(), 2);
    assert_eq!(session.authorize_reconnect(11, 1, 0, now, cfg), Err(ResumeError::OutboxGap));
    assert!(session.authorize_reconnect(11, 1, 1, now, cfg).is_ok());
}

#[test]
fn control_messages_do_not_enter_outbox() {
    let mut sessions: ClientSessions<u32> = ClientSessions::new(config());
    sessions.install_login(7, 11, 5, Routes { logic_id: 1, public_id: 2 }, 0);
    let ping = sessions.send(7, 11, false, START, |h| vec![h.seq as u8, h.ack as u8]).unwrap();
    assert_eq!(ping, vec![1u8, 0u8]);
    assert_eq!(sessions.stats().outbox_messages, 0);
}

#[test]
fn reconnect_allows_five_per_window_and_ten_total() {
    let now = START;
    let mut session = offline_session(now);
    session.disconnected_at = None;
    let cfg = config();
    for offset in 0..5 {
        assert!(session.authorize_reconnect(11, 1, 0, now + offset * SECOND, cfg).is_ok());
    }
    assert_eq!(
        session.authorize_reconnect(11, 1, 0, now + 5 * SECOND, cfg),
        Err(ResumeError::RateLimited)
    );
    for offset in 0..5 {
        assert!(session.authorize_reconnect(11, 1, 0, now + (61 + offset) * SECOND, cfg).is_ok());
    }
    assert_eq!(
        session.authorize_reconnect(11, 1, 0, now + 122 * SECOND, cfg),
        Err(ResumeError::RateLimited)
    );
}

#[test]
fn request_limiter_enforces_burst_and_long_window() {
    let now = START;
    let mut session = offline_session(now);
    let cfg = config();

    for _ in 0..8 {
        assert!(session.accept_rate(now, cfg));
    }
    assert!(!session.accept_rate(now + 999, cfg));

    for _ in 0..7 {
        assert!(session.accept_rate(now + 1001, cfg));
    }
    assert!(!session.accept_rate(now + 1001, cfg));
    assert!(session.accept_rate(now + 5001, cfg));
}

#[test]
fn drain_removes_offline_resume_state() {
    let mut sessions: ClientSessions<u32> = ClientSessions::new(config());
    let routes = Routes { logic_id: 1, public_id: 2 };
    assert!(sessions.install_login(7, 11, 5, routes, 1));
    assert_eq!(sessions.disconnect(7, 11, START), Some(routes));

    let drained = sessions.drain();

    assert_eq!(drained.len(), 1);
    assert_eq!(drained[0].gid, 7);
    assert_eq!(drained[0].session_id, 11);
    assert_eq!(sessions.stats(), StoreStats::default());
}

#[test]
fn expired_resume_state_is_refused() {
    let cfg = config();
    let mut session = offline_session(START);
    assert_eq!(
        session.authorize_reconnect(11, 1, 0, START + cfg.resume_ttl + 1, cfg),
        Err(ResumeError::Expired)
    );
    assert_eq!(session.authorize_reconnect(12, 1, 0, START, cfg), Err(ResumeError::SessionMismatch));
}

#[test]
fn reconnect_replays_only_unacknowledged_messages() {
    let cfg = config();
    let mut session = offline_session(START);
    session.begin_outbound();
    session.retain_outbound(vec![10], START, cfg);
    session.begin_outbound();
    session.retain_outbound(vec![20], START, cfg);
    let result = session.complete_reconnect(11, 12, 9, 1, 1, START, cfg).unwrap();
    assert_eq!(result.replay, vec![vec![20u8]]);
    assert!(result.became_active);
    assert_eq!(session.session_id, 12);
    assert_eq!(session.conn, Some(9));
}

#[test]
fn bound_requests_need_a_newer_sequence() {
    let cfg = config();
    let mut sessions: ClientSessions<u32> = ClientSessions::new(cfg);
    let routes = Routes { logic_id: 3, public_id: 4 };
    sessions.install_login(7, 11, 5, routes, 1);
    assert_eq!(sessions.accept_request(7, 11, 2, 0, START), Ok(routes));
    assert_eq!(sessions.accept_request(7, 11, 2, 0, START), Err(RequestError::InvalidSequence));
    assert_eq!(sessions.accept_request(7, 12, 3, 0, START), Err(RequestError::SessionMismatch));
    assert_eq!(sessions.current_session(7), Some(11));
    assert!(sessions.invalidate(7, 11));
    assert_eq!(sessions.current_session(7), None);
}

#[test]
fn kick_reports_whether_the_session_was_online() {
    let mut sessions: ClientSessions<u32> = ClientSessions::new(config());
    let routes = Routes { logic_id: 3, public_id: 4 };
    sessions.install_login(7, 11, 5, routes, 1);
    assert!(sessions.kick(7, 12).is_none());
    let kicked = sessions.kick(7, 11).unwrap();
    assert!(kicked.was_active);
    assert_eq!(kicked.conn, Some(5));
    assert_eq!(sessions.stats(), StoreStats::default());
}

#[test]
fn offline_sessions_expire_after_the_resume_ttl() {
    let cfg = config();
    let mut sessions: ClientSessions<u32> = ClientSessions::new(cfg);
    let routes = Routes { logic_id: 3, public_id: 4 };
    sessions.install_login(7, 11, 5, routes, 1);
    sessions.install_login(8, 12, 6, routes, 1);
    sessions.disconnect(7, 11, START);
    assert_eq!(sessions.prune_expired(START + cfg.resume_ttl), 0);
    assert_eq!(sessions.prune_expired(START + cfg.resume_ttl + 1), 1);
    let stats = sessions.stats();
    assert_eq!(stats.players, 1);
    assert_eq!(stats.active, 1);
}

#[test]
fn session_config_names_the_first_broken_rule() {
    assert_eq!(SessionConfig::hard_limits().check(), Ok(()));
    SessionConfig::hard_limits().validate();
    let broken = SessionConfig { outbox_messages: 0, ..SessionConfig::hard_limits() };
    assert_eq!(broken.check(), Err(SessionConfigError::OutboxCapacity));
    let burst = SessionConfig { burst_count: 16, ..SessionConfig::hard_limits() };
    assert_eq!(burst.check(), Err(SessionConfigError::BurstAboveRequestLimit));
}

#[test]
fn only_resumable_messages_are_kept_for_replay() {
    let mut sessions: ClientSessions<u32> = ClientSessions::new(config());
    let routes = Routes { logic_id: 3, public_id: 4 };
    sessions.install_login(7, 11, 5, routes, 1);
    let ping = sessions.send(7, 11, false, START, |h| vec![h.seq as u8]).unwrap();
    assert_eq!(ping, vec![1u8]);
    assert_eq!(sessions.stats().outbox_messages, 0);
    let reply = sessions.send(7, 11, true, START, |h| vec![h.seq as u8, h.ack as u8]).unwrap();
    assert_eq!(reply, vec![2u8, 1u8]);
    assert_eq!(sessions.stats().outbox_messages, 1);
    assert_eq!(sessions.send(7, 12, true, START, |_| Vec::new()), Err(SendError::SessionMismatch));
}

#[test]
fn every_window_holds_at_most_the_allowed_requests() {
    let cfg = SessionConfig::hard_limits();
    let mut session = offline_session(START);
    let mut admitted = Vec::new();
    for i in 0..2_000u64 {
        let now = START + i * 7;
        if session.accept_rate(now, cfg) {
            admitted.push(now);
        }
    }
    assert!(admitted.len() > 15);
    for end in (START..START + 14_000).step_by(13) {
        let long = admitted.iter().filter(|&&t| t + cfg.request_window > end && t <= end).count();
        let burst = admitted.iter().filter(|&&t| t + cfg.burst_window > end && t <= end).count();
        assert!(long <= cfg.request_window_count);
        assert!(burst <= cfg.burst_count);
    }
}
