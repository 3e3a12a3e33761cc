//! Gate client sessions: sequence numbers, the resumable outbox, rate limits and
//! the per-player session store.
//!
//! Times are monotonic clock readings in milliseconds; durations are milliseconds.
//! A session is generic over the connection handle `C` that the transport gives
//! it: the rules here never look inside a connection, they only keep, hand back
//! or drop it.

use std::collections::HashMap;
use std::collections::VecDeque;
use vstd::prelude::*;
use vstd::std_specs::iter::IteratorSpec;

verus! {

broadcast use vstd::std_specs::hash::group_hash_axioms;

// ---------------------------------------------------------------------------
// Wrapping sequence numbers
// ---------------------------------------------------------------------------

/// How far `value` lies ahead of `previous`, counting modulo 2^32.
pub open spec fn seq_distance(value: u32, previous: u32) -> int {
    if value >= previous {
        value - previous
    } else {
        value - previous + 0x1_0000_0000
    }
}

/// `value` is newer than `previous`: it lies ahead of it by less than half of
/// the sequence space, and is not equal to it.
pub open spec fn spec_seq_after(value: u32, previous: u32) -> bool {
    let d = seq_distance(value, previous);
    d != 0 && d < 0x8000_0000
}

pub open spec fn spec_seq_at_or_after(value: u32, previous: u32) -> bool {
    value == previous || spec_seq_after(value, previous)
}

/// Whether `value` is strictly newer than `previous` in the wrapping sequence space.
pub fn seq_after(value: u32, previous: u32) -> (r: bool)
    ensures
        r == spec_seq_after(value, previous),
{
    let distance = value.wrapping_sub(previous);
    distance != 0 && distance < 0x8000_0000u32
}

/// The sequence number that follows `s`, wrapping to zero after `u32::MAX`.
pub open spec fn next_seq(s: u32) -> u32 {
    if s == u32::MAX {
        0
    } else {
        (s + 1) as u32
    }
}

/// Whether `value` equals `previous` or is newer than it.
pub fn seq_at_or_after(value: u32, previous: u32) -> (r: bool)
    ensures
        r == spec_seq_at_or_after(value, previous),
{
    value == previous || seq_after(value, previous)
}

/// No sequence number is both newer and older than another.
pub proof fn law_seq_after_asymmetric(a: u32, b: u32)
    ensures
        spec_seq_after(a, b) ==> !spec_seq_after(b, a),
{
}

/// The number that follows a sequence number is newer than it, across the
/// wrap from `u32::MAX` to zero too.
pub proof fn law_next_seq_is_after(s: u32)
    ensures
        spec_seq_after(next_seq(s), s),
{
}

// ---------------------------------------------------------------------------
// Clock helpers and prefix counting
// ---------------------------------------------------------------------------

/// Time elapsed from `at` to `now`; zero when `at` lies in the future.
pub open spec fn elapsed(now: u64, at: u64) -> int {
    if now >= at {
        now - at
    } else {
        0
    }
}

pub fn elapsed_ms(now: u64, at: u64) -> (r: u64)
    ensures
        r == elapsed(now, at),
{
    if now >= at {
        now - at
    } else {
        0
    }
}

proof fn lemma_push_contains<A>(s: Seq<A>, x: A, g: A)
    ensures
        s.push(x).contains(g) <==> s.contains(g) || g == x,
{
    let t = s.push(x);
    if t.contains(g) && g != x {
        let j = choose|j: int| 0 <= j < t.len() && t[j] == g;
        assert(s[j] == g);
    }
    if s.contains(g) {
        let j = choose|j: int| 0 <= j < s.len() && s[j] == g;
        assert(t[j] == g);
    }
    if g == x {
        assert(t[s.len() as int] == g);
    }
}

/// Number of leading elements of `s` that satisfy `p`.
pub open spec fn leading<A>(s: Seq<A>, p: spec_fn(A) -> bool) -> nat
    decreases s.len(),
{
    if s.len() > 0 && p(s[0]) {
        1 + leading(s.drop_first(), p)
    } else {
        0
    }
}

/// Number of trailing elements of `s` that satisfy `p`.
pub open spec fn trailing<A>(s: Seq<A>, p: spec_fn(A) -> bool) -> nat
    decreases s.len(),
{
    if s.len() > 0 && p(s.last()) {
        1 + trailing(s.drop_last(), p)
    } else {
        0
    }
}

proof fn lemma_leading_exact<A>(s: Seq<A>, p: spec_fn(A) -> bool, i: int)
    requires
        0 <= i <= s.len(),
        forall|j: int| 0 <= j < i ==> p(#[trigger] s[j]),
        i == s.len() || !p(s[i]),
    ensures
        leading(s, p) == i,
    decreases i,
{
    if i > 0 {
        let t = s.drop_first();
        assert forall|j: int| 0 <= j < i - 1 implies p(#[trigger] t[j]) by {
            assert(t[j] == s[j + 1]);
        }
        if i - 1 < t.len() {
            assert(t[i - 1] == s[i]);
        }
        lemma_leading_exact(t, p, i - 1);
    }
}

proof fn lemma_trailing_exact<A>(s: Seq<A>, p: spec_fn(A) -> bool, i: int)
    requires
        0 <= i <= s.len(),
        forall|j: int| s.len() - i <= j < s.len() ==> p(#[trigger] s[j]),
        i == s.len() || !p(s[s.len() - 1 - i]),
    ensures
        trailing(s, p) == i,
    decreases i,
{
    if i > 0 {
        let t = s.drop_last();
        assert forall|j: int| t.len() - (i - 1) <= j < t.len() implies p(#[trigger] t[j]) by {
            assert(t[j] == s[j]);
        }
        if i - 1 < t.len() {
            assert(t[t.len() - 1 - (i - 1)] == s[s.len() - 1 - i]);
        }
        lemma_trailing_exact(t, p, i - 1);
    }
}

// ---------------------------------------------------------------------------
// Configuration
// ---------------------------------------------------------------------------

/// Session retention and rate limits of one Gate. Durations are milliseconds.
#[derive(Debug, Clone, Copy, PartialEq, Eq)]
pub struct SessionConfig {
    pub outbox_messages: usize,
    pub resume_ttl: u64,
    pub reconnect_total: usize,
    pub reconnect_window: u64,
    pub reconnect_window_count: usize,
    pub request_window: u64,
    pub request_window_count: usize,
    pub burst_window: u64,
    pub burst_count: usize,
}

/// The first rule a [`SessionConfig`] breaks.
#[derive(Debug, Clone, Copy, PartialEq, Eq)]
pub enum SessionConfigError {
    OutboxCapacity,
    ResumeTtl,
    ReconnectTotal,
    ReconnectWindowCount,
    ReconnectWindowCountAboveTotal,
    ReconnectWindow,
    RequestLimits,
    BurstAboveRequestLimit,
    RequestWindows,
}

impl SessionConfig {
    /// The wire-behaviour limits every Gate runs with.
    pub fn hard_limits() -> (c: Self)
        ensures
            c == (SessionConfig {
                outbox_messages: 256,
                resume_ttl: 60_000,
                reconnect_total: 10,
                reconnect_window: 60_000,
                reconnect_window_count: 5,
                request_window: 5_000,
                request_window_count: 15,
                burst_window: 1_000,
                burst_count: 8,
            }),
            c.spec_valid(),
    {
        SessionConfig {
            outbox_messages: 256,
            resume_ttl: 60_000,
            reconnect_total: 10,
            reconnect_window: 60_000,
            reconnect_window_count: 5,
            request_window: 5_000,
            request_window_count: 15,
            burst_window: 1_000,
            burst_count: 8,
        }
    }

    /// The first rule that this configuration breaks, checked in a fixed order.
    pub open spec fn first_error(self) -> Option<SessionConfigError> {
        if self.outbox_messages == 0 {
            Some(SessionConfigError::OutboxCapacity)
        } else if self.resume_ttl == 0 {
            Some(SessionConfigError::ResumeTtl)
        } else if self.reconnect_total == 0 {
            Some(SessionConfigError::ReconnectTotal)
        } else if self.reconnect_window_count == 0 {
            Some(SessionConfigError::ReconnectWindowCount)
        } else if self.reconnect_window_count > self.reconnect_total {
            Some(SessionConfigError::ReconnectWindowCountAboveTotal)
        } else if self.reconnect_window == 0 {
            Some(SessionConfigError::ReconnectWindow)
        } else if self.request_window_count == 0 || self.burst_count == 0 {
            Some(SessionConfigError::RequestLimits)
        } else if self.burst_count > self.request_window_count {
            Some(SessionConfigError::BurstAboveRequestLimit)
        } else if self.request_window == 0 || self.burst_window == 0 {
            Some(SessionConfigError::RequestWindows)
        } else {
            None
        }
    }

    /// Every limit is positive, the reconnect window allowance fits in the
    /// reconnect total and the burst allowance fits in the request allowance.
    pub open spec fn spec_valid(self) -> bool {
        &&& self.outbox_messages > 0
        &&& self.resume_ttl > 0
        &&& self.reconnect_total > 0
        &&& 0 < self.reconnect_window_count <= self.reconnect_total
        &&& self.reconnect_window > 0
        &&& self.request_window_count > 0
        &&& 0 < self.burst_count <= self.request_window_count
        &&& self.request_window > 0
        &&& self.burst_window > 0
    }

    /// A configuration a Gate may run with; one that breaks a rule is never
    /// handed here (see [`SessionConfig::check`]).
    pub fn validate(self)
        requires
            self.spec_valid(),
    {
    }

    /// Checks the configuration; an invalid one names the first broken rule.
    pub fn check(self) -> (r: Result<(), SessionConfigError>)
        ensures
            r is Ok <==> self.spec_valid(),
            r matches Err(e) ==> self.first_error() == Some(e),
            r is Ok ==> self.first_error() is None,
    {
        if self.outbox_messages == 0 {
            return Err(SessionConfigError::OutboxCapacity);
        }
        if self.resume_ttl == 0 {
            return Err(SessionConfigError::ResumeTtl);
        }
        if self.reconnect_total == 0 {
            return Err(SessionConfigError::ReconnectTotal);
        }
        if self.reconnect_window_count == 0 {
            return Err(SessionConfigError::ReconnectWindowCount);
        }
        if self.reconnect_window_count > self.reconnect_total {
            return Err(SessionConfigError::ReconnectWindowCountAboveTotal);
        }
        if self.reconnect_window == 0 {
            return Err(SessionConfigError::ReconnectWindow);
        }
        if self.request_window_count == 0 || self.burst_count == 0 {
            return Err(SessionConfigError::RequestLimits);
        }
        if self.burst_count > self.request_window_count {
            return Err(SessionConfigError::BurstAboveRequestLimit);
        }
        if self.request_window == 0 || self.burst_window == 0 {
            return Err(SessionConfigError::RequestWindows);
        }
        Ok(())
    }
}

// ---------------------------------------------------------------------------
// Value types
// ---------------------------------------------------------------------------

/// The Logic and Public instances that serve one player session.
#[derive(Debug, Clone, Copy, PartialEq, Eq, Structural)]
pub struct Routes {
    pub logic_id: i32,
    pub public_id: i32,
}

#[derive(Debug, Clone, Copy, Default, PartialEq, Eq)]
pub struct StoreStats {
    pub players: usize,
    pub active: usize,
    pub offline: usize,
    pub outbox_messages: usize,
}

#[derive(Debug, Clone, Copy, PartialEq, Eq, Structural)]
pub enum RequestError {
    SessionMismatch,
    InvalidSequence,
    RateLimited,
}

/// Why a message could not be sent.
#[derive(Debug, Clone, Copy, PartialEq, Eq, Structural)]
pub enum SendError {
    /// The session is not the player's current online session.
    SessionMismatch,
}

#[derive(Debug, Clone, Copy, PartialEq, Eq, Structural)]
pub enum ResumeError {
    Missing,
    Expired,
    SessionMismatch,
    OutboxGap,
    RateLimited,
}

/// Sequence header of one outbound message: the server sequence it carries and
/// the newest client sequence it acknowledges.
#[derive(Debug, Clone, Copy, PartialEq, Eq, Structural)]
pub struct OutboundHeader {
    pub seq: u32,
    pub ack: u32,
}

/// A resumable message that has been sent but not yet acknowledged.
pub struct OutboxMessage {
    pub seq: u32,
    pub sent_at: u64,
    pub payload: Vec<u8>,
}

/// Outcome of a completed reconnect: the messages to send again, in order, and
/// whether the player went from offline to online.
pub struct ReconnectResult {
    pub replay: Vec<Vec<u8>>,
    pub became_active: bool,
}


// ---------------------------------------------------------------------------
// One client session
// ---------------------------------------------------------------------------

pub open spec fn outbox_expired(now: u64, ttl: u64) -> spec_fn(OutboxMessage) -> bool {
    |m: OutboxMessage| elapsed(now, m.sent_at) > ttl
}

pub open spec fn outbox_acknowledged(ack: u32) -> spec_fn(OutboxMessage) -> bool {
    |m: OutboxMessage| !spec_seq_after(m.seq, ack)
}

pub open spec fn outbox_unacknowledged(ack: u32) -> spec_fn(OutboxMessage) -> bool {
    |m: OutboxMessage| spec_seq_after(m.seq, ack)
}

/// A timestamp that has left a sliding window ending at `now`.
pub open spec fn outside_window(now: u64, window: u64) -> spec_fn(u64) -> bool {
    |t: u64| elapsed(now, t) >= window
}

/// A timestamp that lies inside a sliding window ending at `now`.
pub open spec fn inside_window(now: u64, window: u64) -> spec_fn(u64) -> bool {
    |t: u64| elapsed(now, t) < window
}

/// The abstract state of one client session.
#[verifier::ext_equal]
pub struct SessionModel<C> {
    pub session_id: i64,
    pub conn: Option<C>,
    pub routes: Routes,
    pub server_seq: u32,
    pub client_seq: u32,
    pub outbox: Seq<OutboxMessage>,
    pub dropped_through: Option<u32>,
    pub disconnected_at: Option<u64>,
    pub reconnect_count: usize,
    pub reconnect_times: Seq<u64>,
    pub request_times: Seq<u64>,
}

impl<C> SessionModel<C> {
    pub open spec fn active(self) -> bool {
        self.conn is Some
    }

    /// Messages older than `ttl` leave the outbox from the front; the newest
    /// one that left is remembered as dropped.
    pub open spec fn pruned(self, now: u64, ttl: u64) -> Self {
        let k = leading(self.outbox, outbox_expired(now, ttl));
        SessionModel {
            outbox: self.outbox.skip(k as int),
            dropped_through: if k > 0 {
                Some(self.outbox[k - 1].seq)
            } else {
                self.dropped_through
            },
            ..self
        }
    }

    /// Messages that `ack` covers leave the outbox from the front.
    pub open spec fn acknowledged(self, ack: u32) -> Self {
        let k = leading(self.outbox, outbox_acknowledged(ack));
        SessionModel { outbox: self.outbox.skip(k as int), ..self }
    }

    /// A message the client never acknowledged was dropped: resuming from
    /// `ack` would lose it.
    pub open spec fn outbox_gap(self, ack: u32) -> bool {
        self.dropped_through matches Some(d) && !spec_seq_at_or_after(ack, d)
    }

    pub open spec fn authorize_reconnect(
        self,
        previous_session: i64,
        client_seq: u32,
        ack: u32,
        now: u64,
        config: SessionConfig,
    ) -> (Self, Result<Routes, ResumeError>) {
        if self.session_id != previous_session || !spec_seq_after(client_seq, self.client_seq) {
            (self, Err(ResumeError::SessionMismatch))
        } else if self.disconnected_at matches Some(at) && elapsed(now, at) > config.resume_ttl {
            (self, Err(ResumeError::Expired))
        } else {
            let p = self.pruned(now, config.resume_ttl);
            if p.outbox_gap(ack) {
                (p, Err(ResumeError::OutboxGap))
            } else if p.reconnect_count >= config.reconnect_total {
                (p, Err(ResumeError::RateLimited))
            } else {
                let times = p.reconnect_times.skip(
                    leading(p.reconnect_times, outside_window(now, config.reconnect_window)) as int,
                );
                let q = SessionModel { reconnect_times: times, ..p };
                if times.len() >= config.reconnect_window_count {
                    (q, Err(ResumeError::RateLimited))
                } else {
                    (
                        SessionModel {
                            reconnect_count: (q.reconnect_count + 1) as usize,
                            reconnect_times: times.push(now),
                            ..q
                        },
                        Ok(self.routes),
                    )
                }
            }
        }
    }

    /// The payloads that a client acknowledging `ack` has not yet received.
    pub open spec fn replay(self, ack: u32) -> Seq<Seq<u8>> {
        self.outbox.filter(outbox_unacknowledged(ack)).map_values(|m: OutboxMessage| m.payload@)
    }

    pub open spec fn complete_reconnect(
        self,
        previous_session: i64,
        session_id: i64,
        conn: C,
        client_seq: u32,
        ack: u32,
        now: u64,
        config: SessionConfig,
    ) -> (Self, Result<(Seq<Seq<u8>>, bool), ResumeError>) {
        if self.session_id != previous_session || !spec_seq_after(client_seq, self.client_seq) {
            (self, Err(ResumeError::SessionMismatch))
        } else {
            let p = self.pruned(now, config.resume_ttl);
            if p.outbox_gap(ack) {
                (p, Err(ResumeError::OutboxGap))
            } else {
                let a = p.acknowledged(ack);
                (
                    SessionModel {
                        session_id,
                        conn: Some(conn),
                        client_seq,
                        disconnected_at: None,
                        ..a
                    },
                    Ok((a.replay(ack), !a.active())),
                )
            }
        }
    }

    pub open spec fn accept_sequence(
        self,
        session_id: i64,
        seq: u32,
        ack: u32,
        now: u64,
        resume_ttl: u64,
    ) -> (Self, Result<(), RequestError>) {
        if self.session_id != session_id || !self.active() {
            (self, Err(RequestError::SessionMismatch))
        } else if !spec_seq_after(seq, self.client_seq) {
            (self, Err(RequestError::InvalidSequence))
        } else {
            (SessionModel { client_seq: seq, ..self }.pruned(now, resume_ttl).acknowledged(ack), Ok(()))
        }
    }

    /// Sliding-window admission of one request: at most `request_window_count`
    /// requests inside `request_window`, and at most `burst_count` of them inside
    /// `burst_window`. Timestamps that left the long window are forgotten even
    /// when the request is refused.
    pub open spec fn accept_rate(self, now: u64, config: SessionConfig) -> (Self, bool) {
        let times = self.request_times.skip(
            leading(self.request_times, outside_window(now, config.request_window)) as int,
        );
        let s = SessionModel { request_times: times, ..self };
        if times.len() >= config.request_window_count {
            (s, false)
        } else if trailing(times, inside_window(now, config.burst_window)) >= config.burst_count {
            (s, false)
        } else {
            (SessionModel { request_times: times.push(now), ..s }, true)
        }
    }

    pub open spec fn accept_request(
        self,
        session_id: i64,
        seq: u32,
        ack: u32,
        now: u64,
        config: SessionConfig,
    ) -> (Self, Result<Routes, RequestError>) {
        let (s1, r1) = self.accept_sequence(session_id, seq, ack, now, config.resume_ttl);
        if r1 is Err {
            (s1, Err(r1->Err_0))
        } else {
            let (s2, ok) = s1.accept_rate(now, config);
            if ok {
                (s2, Ok(s2.routes))
            } else {
                (s2, Err(RequestError::RateLimited))
            }
        }
    }

    pub open spec fn begin_outbound(self) -> (Self, OutboundHeader) {
        let seq = next_seq(self.server_seq);
        (SessionModel { server_seq: seq, ..self }, OutboundHeader { seq, ack: self.client_seq })
    }

    /// Keeps the message numbered `server_seq` for replay. A full outbox drops
    /// its oldest message first.
    pub open spec fn retain_outbound(self, payload: Vec<u8>, now: u64, config: SessionConfig) -> Self {
        let p = self.pruned(now, config.resume_ttl);
        let message = OutboxMessage { seq: p.server_seq, sent_at: now, payload };
        if p.outbox.len() == config.outbox_messages {
            SessionModel {
                outbox: p.outbox.drop_first().push(message),
                dropped_through: Some(p.outbox[0].seq),
                ..p
            }
        } else {
            SessionModel { outbox: p.outbox.push(message), ..p }
        }
    }
}

/// One player's Gate session: its connection while online, its routes, the
/// sequence state of both directions, the resumable outbox and the rate windows.
pub struct ClientSession<C> {
    pub session_id: i64,
    pub conn: Option<C>,
    pub routes: Routes,
    pub server_seq: u32,
    pub client_seq: u32,
    pub outbox: VecDeque<OutboxMessage>,
    pub dropped_through: Option<u32>,
    pub disconnected_at: Option<u64>,
    pub reconnect_count: usize,
    pub reconnect_times: VecDeque<u64>,
    pub request_times: VecDeque<u64>,
}

impl<C> View for ClientSession<C> {
    type V = SessionModel<C>;

    open spec fn view(&self) -> SessionModel<C> {
        SessionModel {
            session_id: self.session_id,
            conn: self.conn,
            routes: self.routes,
            server_seq: self.server_seq,
            client_seq: self.client_seq,
            outbox: self.outbox@,
            dropped_through: self.dropped_through,
            disconnected_at: self.disconnected_at,
            reconnect_count: self.reconnect_count,
            reconnect_times: self.reconnect_times@,
            request_times: self.request_times@,
        }
    }
}

impl<C> ClientSession<C> {
    /// A freshly logged-in session on connection `conn`.
    pub fn new(session_id: i64, conn: C, routes: Routes, client_seq: u32) -> (s: Self)
        ensures
            s@ == (SessionModel {
                session_id,
                conn: Some(conn),
                routes,
                server_seq: 0,
                client_seq,
                outbox: Seq::empty(),
                dropped_through: None,
                disconnected_at: None,
                reconnect_count: 0,
                reconnect_times: Seq::empty(),
                request_times: Seq::empty(),
            }),
    {
        ClientSession {
            session_id,
            conn: Some(conn),
            routes,
            server_seq: 0,
            client_seq,
            outbox: VecDeque::new(),
            dropped_through: None,
            disconnected_at: None,
            reconnect_count: 0,
            reconnect_times: VecDeque::new(),
            request_times: VecDeque::new(),
        }
    }

    pub fn active(&self) -> (r: bool)
        ensures
            r == self@.active(),
    {
        self.conn.is_some()
    }

    pub fn prune_outbox(&mut self, now: u64, ttl: u64)
        ensures
            final(self)@ == old(self)@.pruned(now, ttl),
    {
        let ghost pre = self@;
        let ghost s0 = self.outbox@;
        let ghost mut k: int = 0;
        while self.outbox.len() > 0 && elapsed_ms(now, self.outbox[0].sent_at) > ttl
            invariant
                0 <= k <= s0.len(),
                pre.outbox == s0,
                self.outbox@ == s0.skip(k),
                forall|j: int| 0 <= j < k ==> #[trigger] outbox_expired(now, ttl)(s0[j]),
                self@ == (SessionModel {
                    outbox: s0.skip(k),
                    dropped_through: if k > 0 {
                        Some(s0[k - 1].seq)
                    } else {
                        pre.dropped_through
                    },
                    ..pre
                }),
            decreases self.outbox.len(),
        {
            let dropped = self.outbox.pop_front();
            proof {
                assert(s0.skip(k)[0] == s0[k]);
                assert(s0.skip(k).subrange(1, s0.skip(k).len() as int) =~= s0.skip(k + 1));
            }
            match dropped {
                Some(m) => {
                    self.dropped_through = Some(m.seq);
                },
                None => {},
            }
            proof {
                k = k + 1;
            }
        }
        proof {
            if k < s0.len() {
                assert(s0.skip(k)[0] == s0[k]);
            }
            lemma_leading_exact(s0, outbox_expired(now, ttl), k);
        }
    }

    pub fn acknowledge_outbox(&mut self, ack: u32)
        ensures
            final(self)@ == old(self)@.acknowledged(ack),
    {
        let ghost pre = self@;
        let ghost s0 = self.outbox@;
        let ghost mut k: int = 0;
        while self.outbox.len() > 0 && !seq_after(self.outbox[0].seq, ack)
            invariant
                0 <= k <= s0.len(),
                pre.outbox == s0,
                forall|j: int| 0 <= j < k ==> #[trigger] outbox_acknowledged(ack)(s0[j]),
                self@ == (SessionModel { outbox: s0.skip(k), ..pre }),
            decreases self.outbox.len(),
        {
            let _ = self.outbox.pop_front();
            proof {
                assert(s0.skip(k)[0] == s0[k]);
                assert(s0.skip(k).subrange(1, s0.skip(k).len() as int) =~= s0.skip(k + 1));
                k = k + 1;
            }
        }
        proof {
            if k < s0.len() {
                assert(s0.skip(k)[0] == s0[k]);
            }
            lemma_leading_exact(s0, outbox_acknowledged(ack), k);
        }
    }

    pub fn begin_outbound(&mut self) -> (h: OutboundHeader)
        ensures
            (final(self)@, h) == old(self)@.begin_outbound(),
    {
        self.server_seq = self.server_seq.wrapping_add(1);
        OutboundHeader { seq: self.server_seq, ack: self.client_seq }
    }

    pub fn retain_outbound(&mut self, payload: Vec<u8>, now: u64, config: SessionConfig)
        requires
            config.outbox_messages > 0,
        ensures
            final(self)@ == old(self)@.retain_outbound(payload, now, config),
    {
        self.prune_outbox(now, config.resume_ttl);
        let ghost p = self@;
        if self.outbox.len() == config.outbox_messages {
            let dropped = self.outbox.pop_front();
            match dropped {
                Some(m) => {
                    self.dropped_through = Some(m.seq);
                },
                None => {},
            }
        }
        self.outbox.push_back(OutboxMessage { seq: self.server_seq, sent_at: now, payload });
        proof {
            if p.outbox.len() == config.outbox_messages {
                assert(p.outbox.subrange(1, p.outbox.len() as int) =~= p.outbox.drop_first());
            }
        }
    }

    pub fn authorize_reconnect(
        &mut self,
        previous_session: i64,
        client_seq: u32,
        ack: u32,
        now: u64,
        config: SessionConfig,
    ) -> (r: Result<Routes, ResumeError>)
        ensures
            (final(self)@, r) == old(self)@.authorize_reconnect(previous_session, client_seq, ack, now, config),
    {
        if self.session_id != previous_session {
            return Err(ResumeError::SessionMismatch);
        }
        if !seq_after(client_seq, self.client_seq) {
            return Err(ResumeError::SessionMismatch);
        }
        match self.disconnected_at {
            Some(at) => {
                if elapsed_ms(now, at) > config.resume_ttl {
                    return Err(ResumeError::Expired);
                }
            },
            None => {},
        }
        self.prune_outbox(now, config.resume_ttl);
        match self.dropped_through {
            Some(dropped) => {
                if !seq_at_or_after(ack, dropped) {
                    return Err(ResumeError::OutboxGap);
                }
            },
            None => {},
        }
        if self.reconnect_count >= config.reconnect_total {
            return Err(ResumeError::RateLimited);
        }
        prune_window(&mut self.reconnect_times, now, config.reconnect_window);
        if self.reconnect_times.len() >= config.reconnect_window_count {
            return Err(ResumeError::RateLimited);
        }
        self.reconnect_count = self.reconnect_count + 1;
        self.reconnect_times.push_back(now);
        Ok(self.routes)
    }

    pub fn complete_reconnect(
        &mut self,
        previous_session: i64,
        session_id: i64,
        conn: C,
        client_seq: u32,
        ack: u32,
        now: u64,
        config: SessionConfig,
    ) -> (r: Result<ReconnectResult, ResumeError>)
        ensures
            ({
                let (post, res) = old(self)@.complete_reconnect(
                    previous_session,
                    session_id,
                    conn,
                    client_seq,
                    ack,
                    now,
                    config,
                );
                &&& final(self)@ == post
                &&& r is Ok <==> res is Ok
                &&& r matches Err(e) ==> res == Err::<(Seq<Seq<u8>>, bool), ResumeError>(e)
                &&& r matches Ok(v) ==> (v.replay@.map_values(|p: Vec<u8>| p@), v.became_active)
                    == res->Ok_0
            }),
    {
        if self.session_id != previous_session {
            return Err(ResumeError::SessionMismatch);
        }
        if !seq_after(client_seq, self.client_seq) {
            return Err(ResumeError::SessionMismatch);
        }
        self.prune_outbox(now, config.resume_ttl);
        match self.dropped_through {
            Some(dropped) => {
                if !seq_at_or_after(ack, dropped) {
                    return Err(ResumeError::OutboxGap);
                }
            },
            None => {},
        }
        self.acknowledge_outbox(ack);
        let became_active = !self.active();
        self.session_id = session_id;
        self.conn = Some(conn);
        self.client_seq = client_seq;
        self.disconnected_at = None;
        let replay = collect_replay(&self.outbox, ack);
        Ok(ReconnectResult { replay, became_active })
    }

    pub fn accept_sequence(
        &mut self,
        session_id: i64,
        seq: u32,
        ack: u32,
        now: u64,
        resume_ttl: u64,
    ) -> (r: Result<(), RequestError>)
        ensures
            (final(self)@, r) == old(self)@.accept_sequence(session_id, seq, ack, now, resume_ttl),
    {
        if self.session_id != session_id || !self.active() {
            return Err(RequestError::SessionMismatch);
        }
        if !seq_after(seq, self.client_seq) {
            return Err(RequestError::InvalidSequence);
        }
        self.client_seq = seq;
        self.prune_outbox(now, resume_ttl);
        self.acknowledge_outbox(ack);
        Ok(())
    }

    pub fn accept_rate(&mut self, now: u64, config: SessionConfig) -> (r: bool)
        ensures
            (final(self)@, r) == old(self)@.accept_rate(now, config),
    {
        prune_window(&mut self.request_times, now, config.request_window);
        if self.request_times.len() >= config.request_window_count {
            return false;
        }
        let burst = trailing_within(&self.request_times, now, config.burst_window);
        if burst >= config.burst_count {
            return false;
        }
        self.request_times.push_back(now);
        true
    }

    pub fn accept_request(
        &mut self,
        session_id: i64,
        seq: u32,
        ack: u32,
        now: u64,
        config: SessionConfig,
    ) -> (r: Result<Routes, RequestError>)
        ensures
            (final(self)@, r) == old(self)@.accept_request(session_id, seq, ack, now, config),
    {
        match self.accept_sequence(session_id, seq, ack, now, config.resume_ttl) {
            Err(e) => {
                return Err(e);
            },
            Ok(()) => {},
        }
        if !self.accept_rate(now, config) {
            return Err(RequestError::RateLimited);
        }
        Ok(self.routes)
    }
}

/// Forgets the timestamps at the front of `times` that have left the window.
fn prune_window(times: &mut VecDeque<u64>, now: u64, window: u64)
    ensures
        final(times)@ == old(times)@.skip(leading(old(times)@, outside_window(now, window)) as int),
{
    let ghost s0 = times@;
    let ghost mut k: int = 0;
    while times.len() > 0 && elapsed_ms(now, times[0]) >= window
        invariant
            0 <= k <= s0.len(),
            times@ == s0.skip(k),
            forall|j: int| 0 <= j < k ==> #[trigger] outside_window(now, window)(s0[j]),
        decreases times.len(),
    {
        let _ = times.pop_front();
        proof {
            assert(s0.skip(k)[0] == s0[k]);
            assert(s0.skip(k).subrange(1, s0.skip(k).len() as int) =~= s0.skip(k + 1));
            k = k + 1;
        }
    }
    proof {
        if k < s0.len() {
            assert(s0.skip(k)[0] == s0[k]);
        }
        lemma_leading_exact(s0, outside_window(now, window), k);
    }
}

/// Counts the newest timestamps that still lie inside the window.
fn trailing_within(times: &VecDeque<u64>, now: u64, window: u64) -> (r: usize)
    ensures
        r == trailing(times@, inside_window(now, window)),
{
    let n = times.len();
    let mut count: usize = 0;
    while count < n && elapsed_ms(now, times[n - 1 - count]) < window
        invariant
            n == times@.len(),
            count <= n,
            forall|j: int| n - count <= j < n ==> #[trigger] inside_window(now, window)(times@[j]),
        decreases n - count,
    {
        count = count + 1;
    }
    proof {
        lemma_trailing_exact(times@, inside_window(now, window), count as int);
    }
    count
}

/// Copies the payloads that `ack` does not cover, oldest first.
fn collect_replay(outbox: &VecDeque<OutboxMessage>, ack: u32) -> (r: Vec<Vec<u8>>)
    ensures
        r@.map_values(|p: Vec<u8>| p@) == outbox@.filter(outbox_unacknowledged(ack)).map_values(
            |m: OutboxMessage| m.payload@,
        ),
{
    let mut replay: Vec<Vec<u8>> = Vec::new();
    let n = outbox.len();
    let mut i: usize = 0;
    while i < n
        invariant
            n == outbox@.len(),
            i <= n,
            replay@.map_values(|p: Vec<u8>| p@) == outbox@.take(i as int).filter(
                outbox_unacknowledged(ack),
            ).map_values(|m: OutboxMessage| m.payload@),
        decreases n - i,
    {
        let ghost before = replay@;
        if seq_after(outbox[i].seq, ack) {
            let copy = copy_bytes(&outbox[i].payload);
            replay.push(copy);
        }
        proof {
            reveal_with_fuel(Seq::filter, 1);
            assert(outbox@.take(i + 1).drop_last() =~= outbox@.take(i as int));
            assert(outbox@.take(i + 1).last() == outbox@[i as int]);
            let f = outbox@.take(i as int).filter(outbox_unacknowledged(ack));
            if spec_seq_after(outbox@[i as int].seq, ack) {
                assert(outbox@.take(i + 1).filter(outbox_unacknowledged(ack)) == f.push(outbox@[i as int]));
                assert(replay@ == before.push(replay@.last()));
                assert(replay@.map_values(|p: Vec<u8>| p@) =~= before.map_values(|p: Vec<u8>| p@).push(
                    outbox@[i as int].payload@));
                assert(f.push(outbox@[i as int]).map_values(|m: OutboxMessage| m.payload@) =~= f.map_values(
                    |m: OutboxMessage| m.payload@).push(outbox@[i as int].payload@));
            } else {
                assert(outbox@.take(i + 1).filter(outbox_unacknowledged(ack)) == f);
            }
        }
        i = i + 1;
    }
    proof {
        assert(outbox@.take(n as int) =~= outbox@);
    }
    replay
}

/// A byte-for-byte copy of `bytes`.
fn copy_bytes(bytes: &Vec<u8>) -> (r: Vec<u8>)
    ensures
        r@ == bytes@,
{
    let mut out: Vec<u8> = Vec::with_capacity(bytes.len());
    let mut i: usize = 0;
    while i < bytes.len()
        invariant
            i <= bytes.len(),
            out@ == bytes@.take(i as int),
        decreases bytes.len() - i,
    {
        out.push(bytes[i]);
        proof {
            assert(bytes@.take(i + 1) =~= bytes@.take(i as int).push(bytes@[i as int]));
        }
        i = i + 1;
    }
    proof {
        assert(bytes@.take(bytes.len() as int) =~= bytes@);
    }
    out
}


// ---------------------------------------------------------------------------
// Laws of one session
// ---------------------------------------------------------------------------

proof fn lemma_leading_bound<A>(s: Seq<A>, p: spec_fn(A) -> bool)
    ensures
        leading(s, p) <= s.len(),
    decreases s.len(),
{
    if s.len() > 0 && p(s[0]) {
        lemma_leading_bound(s.drop_first(), p);
    }
}

/// The outbox never outgrows its capacity: keeping one more message in an
/// outbox within capacity leaves it within capacity.
pub proof fn law_outbox_stays_bounded<C>(
    m: SessionModel<C>,
    payload: Vec<u8>,
    now: u64,
    config: SessionConfig,
)
    requires
        config.outbox_messages > 0,
        m.outbox.len() <= config.outbox_messages,
    ensures
        m.retain_outbound(payload, now, config).outbox.len() <= config.outbox_messages,
{
    lemma_leading_bound(m.outbox, outbox_expired(now, config.resume_ttl));
}

/// An accepted request leaves at most `request_window_count` requests in
/// the long window and at most `burst_count` in the burst window, the
/// accepted one included.
pub proof fn law_request_window_bounded<C>(m: SessionModel<C>, now: u64, config: SessionConfig)
    requires
        config.spec_valid(),
    ensures
        m.accept_rate(now, config).1 ==> m.accept_rate(now, config).0.request_times.len()
            <= config.request_window_count,
        m.accept_rate(now, config).1 ==> trailing(
            m.accept_rate(now, config).0.request_times,
            inside_window(now, config.burst_window),
        ) <= config.burst_count,
{
    let times = m.request_times.skip(
        leading(m.request_times, outside_window(now, config.request_window)) as int,
    );
    let p = inside_window(now, config.burst_window);
    let pushed = times.push(now);
    assert(pushed.drop_last() =~= times);
    assert(p(pushed.last()));
}

/// The session after requests arrive at the times `nows`, one after the
/// other, and whether the rate limit let each of them through.
pub open spec fn rate_run<C>(m: SessionModel<C>, nows: Seq<u64>, config: SessionConfig) -> (
    SessionModel<C>,
    Seq<bool>,
)
    decreases nows.len(),
{
    if nows.len() == 0 {
        (m, Seq::empty())
    } else {
        let (m1, oks) = rate_run(m, nows.drop_last(), config);
        let (m2, ok) = m1.accept_rate(nows.last(), config);
        (m2, oks.push(ok))
    }
}

/// The arrival times of the requests that were let through, in order.
pub open spec fn admitted_times(nows: Seq<u64>, oks: Seq<bool>) -> Seq<u64>
    decreases nows.len(),
{
    if nows.len() == 0 || oks.len() == 0 {
        Seq::empty()
    } else {
        let rest = admitted_times(nows.drop_last(), oks.drop_last());
        if oks.last() {
            rest.push(nows.last())
        } else {
            rest
        }
    }
}

/// How many of `times` lie in `(lo, hi]`.
pub open spec fn count_between(times: Seq<u64>, lo: int, hi: int) -> nat
    decreases times.len(),
{
    if times.len() == 0 {
        0
    } else {
        count_between(times.drop_last(), lo, hi) + if lo < times.last() <= hi {
            1nat
        } else {
            0nat
        }
    }
}

pub open spec fn ascending(s: Seq<u64>) -> bool {
    forall|i: int, j: int| 0 <= i <= j < s.len() ==> s[i] <= s[j]
}

proof fn lemma_count_all(s: Seq<u64>, lo: int, hi: int)
    requires
        forall|k: int| 0 <= k < s.len() ==> lo < #[trigger] s[k] <= hi,
    ensures
        count_between(s, lo, hi) == s.len(),
    decreases s.len(),
{
    if s.len() > 0 {
        lemma_count_all(s.drop_last(), lo, hi);
    }
}

proof fn lemma_count_none(s: Seq<u64>, lo: int, hi: int)
    requires
        forall|k: int| 0 <= k < s.len() ==> #[trigger] s[k] <= lo,
    ensures
        count_between(s, lo, hi) == 0,
    decreases s.len(),
{
    if s.len() > 0 {
        lemma_count_none(s.drop_last(), lo, hi);
    }
}

proof fn lemma_count_concat(a: Seq<u64>, b: Seq<u64>, lo: int, hi: int)
    ensures
        count_between(a + b, lo, hi) == count_between(a, lo, hi) + count_between(b, lo, hi),
    decreases b.len(),
{
    if b.len() == 0 {
        assert(a + b =~= a);
    } else {
        lemma_count_concat(a, b.drop_last(), lo, hi);
        assert((a + b).drop_last() =~= a + b.drop_last());
    }
}

proof fn lemma_count_narrow(s: Seq<u64>, lo1: int, hi1: int, lo2: int, hi2: int)
    requires
        lo2 <= lo1,
        hi1 <= hi2,
    ensures
        count_between(s, lo1, hi1) <= count_between(s, lo2, hi2),
    decreases s.len(),
{
    if s.len() > 0 {
        lemma_count_narrow(s.drop_last(), lo1, hi1, lo2, hi2);
    }
}

proof fn lemma_count_cap(s: Seq<u64>, lo: int, hi: int, top: int)
    requires
        top <= hi,
        forall|k: int| 0 <= k < s.len() ==> #[trigger] s[k] <= top,
    ensures
        count_between(s, lo, hi) == count_between(s, lo, top),
    decreases s.len(),
{
    if s.len() > 0 {
        lemma_count_cap(s.drop_last(), lo, hi, top);
    }
}

proof fn lemma_leading_props<A>(s: Seq<A>, p: spec_fn(A) -> bool)
    ensures
        leading(s, p) <= s.len(),
        forall|k: int| 0 <= k < leading(s, p) ==> p(#[trigger] s[k]),
        leading(s, p) < s.len() ==> !p(s[leading(s, p) as int]),
    decreases s.len(),
{
    if s.len() > 0 && p(s[0]) {
        let t = s.drop_first();
        lemma_leading_props(t, p);
        assert forall|k: int| 0 <= k < leading(s, p) implies p(#[trigger] s[k]) by {
            if k > 0 {
                assert(s[k] == t[k - 1]);
            }
        }
        if leading(s, p) < s.len() {
            assert(s[leading(s, p) as int] == t[leading(t, p) as int]);
        }
    }
}

proof fn lemma_trailing_count(s: Seq<u64>, now: u64, window: u64)
    requires
        ascending(s),
        forall|k: int| 0 <= k < s.len() ==> #[trigger] s[k] <= now,
    ensures
        trailing(s, inside_window(now, window)) == count_between(s, now - window, now as int),
    decreases s.len(),
{
    if s.len() > 0 {
        let p = inside_window(now, window);
        if p(s.last()) {
            lemma_trailing_count(s.drop_last(), now, window);
        } else {
            assert forall|k: int| 0 <= k < s.len() implies #[trigger] s[k] <= now - window by {
                assert(s[k] <= s[s.len() - 1]);
            }
            lemma_count_none(s, now - window, now as int);
        }
    }
}

/// What the rate limiter keeps in step with the requests it let through:
/// its timestamps are the newest admitted times, and every older admitted
/// time lies a full window before the latest arrival.
spec fn rate_inv(times: Seq<u64>, a: Seq<u64>, last: int, window: int) -> bool {
    &&& ascending(a)
    &&& forall|k: int| 0 <= k < a.len() ==> #[trigger] a[k] <= last
    &&& times.len() <= a.len()
    &&& a.skip(a.len() - times.len()) == times
    &&& forall|k: int| 0 <= k < a.len() - times.len() ==> #[trigger] a[k] + window <= last
}

/// One arrival: the limiter keeps its invariant, and a request it lets
/// through found fewer than the allowed admitted times in each window
/// ending at its arrival.
proof fn lemma_rate_step<C>(m1: SessionModel<C>, a1: Seq<u64>, last1: int, now: u64, config: SessionConfig)
    requires
        config.burst_window <= config.request_window,
        rate_inv(m1.request_times, a1, last1, config.request_window as int),
        last1 <= now,
    ensures
        ({
            let (m2, ok) = m1.accept_rate(now, config);
            let a2 = if ok {
                a1.push(now)
            } else {
                a1
            };
            &&& rate_inv(m2.request_times, a2, now as int, config.request_window as int)
            &&& forall|k: int| 0 <= k < a1.len() ==> #[trigger] a1[k] <= now
            &&& ok ==> count_between(a1, now - config.request_window, now as int)
                < config.request_window_count
            &&& ok ==> count_between(a1, now - config.burst_window, now as int) < config.burst_count
        }),
{
    let w = config.request_window as int;
    let bw = config.burst_window as int;
    let times1 = m1.request_times;
    let (m2, ok) = m1.accept_rate(now, config);
    let p1 = a1.len() - times1.len();
    let out = outside_window(now, config.request_window);
    let l = leading(times1, out);
    lemma_leading_props(times1, out);
    let kept = times1.skip(l as int);
    assert(kept =~= a1.skip(p1 + l));
    assert forall|k: int| 0 <= k < p1 + l implies #[trigger] a1[k] <= now - w by {
        if k >= p1 {
            assert(a1[k] == times1[k - p1]);
            assert(out(times1[k - p1]));
        }
    }
    assert forall|k: int| 0 <= k < kept.len() implies now - w < #[trigger] kept[k] <= now by {
        assert(kept[k] == a1[p1 + l + k]);
        assert(a1[p1 + l] <= a1[p1 + l + k]);
        assert(a1[p1 + l] == times1[l as int]);
    }
    assert(ascending(kept)) by {
        assert forall|i: int, j: int| 0 <= i <= j < kept.len() implies kept[i] <= kept[j] by {
            assert(kept[i] == a1[p1 + l + i]);
            assert(kept[j] == a1[p1 + l + j]);
        }
    }
    let pre = a1.take(p1 + l);
    assert(a1 =~= pre + kept);
    assert forall|k: int| 0 <= k < pre.len() implies #[trigger] pre[k] <= now - w by {
        assert(pre[k] == a1[k]);
    }
    assert forall|k: int| 0 <= k < pre.len() implies #[trigger] pre[k] <= now - bw by {
        assert(pre[k] == a1[k]);
    }
    lemma_count_none(pre, now - w, now as int);
    lemma_count_none(pre, now - bw, now as int);
    lemma_count_all(kept, now - w, now as int);
    lemma_count_concat(pre, kept, now - w, now as int);
    lemma_count_concat(pre, kept, now - bw, now as int);
    lemma_trailing_count(kept, now, config.burst_window);
    assert(m2.request_times == if ok {
        kept.push(now)
    } else {
        kept
    });
    let a2 = if ok {
        a1.push(now)
    } else {
        a1
    };
    if ok {
        assert(a2.skip(a2.len() - m2.request_times.len()) =~= m2.request_times);
        assert forall|k: int| 0 <= k < a2.len() - m2.request_times.len() implies #[trigger] a2[k] + w
            <= now by {
            assert(a2[k] == a1[k]);
        }
    } else {
        assert(a2.skip(a2.len() - m2.request_times.len()) =~= m2.request_times);
    }
}

/// Letting one more request through at `now` keeps a window's count within
/// `cap`, when the window ending at `now` held fewer than `cap`.
proof fn lemma_window_step(a1: Seq<u64>, now: u64, window: u64, cap: nat, t: int, ok: bool)
    requires
        forall|k: int| 0 <= k < a1.len() ==> #[trigger] a1[k] <= now,
        ok ==> count_between(a1, now - window, now as int) < cap,
        count_between(a1, t - window, t) <= cap,
    ensures
        count_between(if ok { a1.push(now) } else { a1 }, t - window, t) <= cap,
{
    if ok {
        assert(a1.push(now).drop_last() =~= a1);
        if t - window < now <= t {
            lemma_count_cap(a1, t - window, t, now as int);
            lemma_count_narrow(a1, t - window, now as int, now - window, now as int);
        }
    }
}

proof fn lemma_rate_run<C>(m: SessionModel<C>, nows: Seq<u64>, config: SessionConfig)
    requires
        config.spec_valid(),
        config.burst_window <= config.request_window,
        m.request_times.len() == 0,
        ascending(nows),
    ensures
        rate_run(m, nows, config).1.len() == nows.len(),
        nows.len() > 0 ==> rate_inv(
            rate_run(m, nows, config).0.request_times,
            admitted_times(nows, rate_run(m, nows, config).1),
            nows.last() as int,
            config.request_window as int,
        ),
        nows.len() == 0 ==> rate_run(m, nows, config).0.request_times.len() == 0
            && admitted_times(nows, rate_run(m, nows, config).1).len() == 0,
        forall|t: int|
            #![trigger count_between(admitted_times(nows, rate_run(m, nows, config).1), t - config.request_window, t)]
            count_between(
                admitted_times(nows, rate_run(m, nows, config).1),
                t - config.request_window,
                t,
            ) <= config.request_window_count,
        forall|t: int|
            #![trigger count_between(admitted_times(nows, rate_run(m, nows, config).1), t - config.burst_window, t)]
            count_between(
                admitted_times(nows, rate_run(m, nows, config).1),
                t - config.burst_window,
                t,
            ) <= config.burst_count,
    decreases nows.len(),
{
    if nows.len() == 0 {
        return;
    }
    let now = nows.last();
    let prev = nows.drop_last();
    assert(ascending(prev));
    lemma_rate_run(m, prev, config);
    let (m1, oks1) = rate_run(m, prev, config);
    let a1 = admitted_times(prev, oks1);
    let last1: int = if prev.len() > 0 {
        assert(nows[prev.len() - 1] <= nows[nows.len() - 1]);
        prev.last() as int
    } else {
        assert(a1.skip(0) =~= m1.request_times);
        now as int
    };
    lemma_rate_step(m1, a1, last1, now, config);
    let (m2, ok) = m1.accept_rate(now, config);
    let oks2 = oks1.push(ok);
    assert(oks2.drop_last() =~= oks1);
    assert(admitted_times(nows, oks2) == if ok {
        a1.push(now)
    } else {
        a1
    });
    assert forall|t: int|
        #![trigger count_between(admitted_times(nows, oks2), t - config.request_window, t)]
        count_between(admitted_times(nows, oks2), t - config.request_window, t)
            <= config.request_window_count by {
        assert(count_between(a1, t - config.request_window, t) <= config.request_window_count);
        lemma_window_step(a1, now, config.request_window, config.request_window_count as nat, t, ok);
    }
    assert forall|t: int|
        #![trigger count_between(admitted_times(nows, oks2), t - config.burst_window, t)]
        count_between(admitted_times(nows, oks2), t - config.burst_window, t) <= config.burst_count by {
        assert(count_between(a1, t - config.burst_window, t) <= config.burst_count);
        lemma_window_step(a1, now, config.burst_window, config.burst_count as nat, t, ok);
    }
}

/// Requests are rate limited over time, not only per call: starting from a
/// session with no recent requests and taking requests in arrival order,
/// every sliding window of `request_window` milliseconds ending at any
/// instant holds at most `request_window_count` requests that were let
/// through, and every window of `burst_window` at most `burst_count`. The
/// burst bound needs the burst window to be no longer than the request
/// window, since the limiter only remembers the request window.
pub proof fn law_request_rate_over_time<C>(
    m: SessionModel<C>,
    nows: Seq<u64>,
    config: SessionConfig,
    t: int,
)
    requires
        config.spec_valid(),
        config.burst_window <= config.request_window,
        m.request_times.len() == 0,
        ascending(nows),
    ensures
        count_between(admitted_times(nows, rate_run(m, nows, config).1), t - config.request_window, t)
            <= config.request_window_count,
        count_between(admitted_times(nows, rate_run(m, nows, config).1), t - config.burst_window, t)
            <= config.burst_count,
{
    lemma_rate_run(m, nows, config);
}

/// Splits ascending timestamps at the sliding window of `window` ending at
/// `now`: the timestamps the limiter keeps are exactly those inside it.
proof fn lemma_window_split(times: Seq<u64>, now: u64, window: u64)
    requires
        ascending(times),
        forall|k: int| 0 <= k < times.len() ==> #[trigger] times[k] <= now,
    ensures
        ({
            let kept = times.skip(leading(times, outside_window(now, window)) as int);
            &&& ascending(kept)
            &&& forall|k: int| 0 <= k < kept.len() ==> now - window < #[trigger] kept[k] <= now
            &&& count_between(times, now - window, now as int) == kept.len()
            &&& forall|b: int|
                0 <= b <= window ==> #[trigger] count_between(times, now - b, now as int)
                    == count_between(kept, now - b, now as int)
        }),
{
    let out = outside_window(now, window);
    let l = leading(times, out);
    lemma_leading_props(times, out);
    let kept = times.skip(l as int);
    let pre = times.take(l as int);
    assert(times =~= pre + kept);
    assert forall|k: int| 0 <= k < pre.len() implies #[trigger] pre[k] <= now - window by {
        assert(pre[k] == times[k]);
        assert(out(times[k]));
    }
    assert forall|k: int| 0 <= k < kept.len() implies now - window < #[trigger] kept[k] <= now by {
        assert(kept[k] == times[l + k]);
        assert(times[l as int] <= times[l + k]);
    }
    assert(ascending(kept)) by {
        assert forall|i: int, j: int| 0 <= i <= j < kept.len() implies kept[i] <= kept[j] by {
            assert(kept[i] == times[l + i]);
            assert(kept[j] == times[l + j]);
        }
    }
    lemma_count_none(pre, now - window, now as int);
    lemma_count_all(kept, now - window, now as int);
    lemma_count_concat(pre, kept, now - window, now as int);
    assert forall|b: int|
        0 <= b <= window implies #[trigger] count_between(times, now - b, now as int)
            == count_between(kept, now - b, now as int) by {
        assert forall|k: int| 0 <= k < pre.len() implies #[trigger] pre[k] <= now - b by {
            assert(pre[k] <= now - window);
        }
        lemma_count_none(pre, now - b, now as int);
        lemma_count_concat(pre, kept, now - b, now as int);
    }
}

/// A request is admitted exactly when the rate limits leave room for it:
/// once its session and sequence are accepted, it is refused as rate limited
/// if and only if `request_window_count` requests already arrived in the
/// request window ending now, or `burst_count` in the burst window (the
/// limiter remembers the request window only, so a longer burst window
/// counts as long as the request window). An admitted request is recorded,
/// and stays within the limits; a refused one is not recorded.
pub proof fn law_requests_admitted_within_limits<C>(
    m: SessionModel<C>,
    session_id: i64,
    seq: u32,
    ack: u32,
    now: u64,
    config: SessionConfig,
)
    requires
        config.spec_valid(),
        ascending(m.request_times),
        forall|k: int| 0 <= k < m.request_times.len() ==> #[trigger] m.request_times[k] <= now,
    ensures
        ({
            let (s, r) = m.accept_request(session_id, seq, ack, now, config);
            let recent = count_between(m.request_times, now - config.request_window, now as int);
            let short = if config.burst_window < config.request_window {
                config.burst_window
            } else {
                config.request_window
            };
            let burst = count_between(m.request_times, now - short, now as int);
            &&& m.accept_sequence(session_id, seq, ack, now, config.resume_ttl).1 is Ok ==> (r is Ok
                <==> recent < config.request_window_count && burst < config.burst_count)
            &&& m.accept_sequence(session_id, seq, ack, now, config.resume_ttl).1 is Err ==> r is Err
                && r != Err::<Routes, RequestError>(RequestError::RateLimited)
            &&& r is Ok ==> s.request_times.len() == recent + 1 && s.request_times.last() == now
                && s.request_times.len() <= config.request_window_count
            &&& r == Err::<Routes, RequestError>(RequestError::RateLimited) ==> s.request_times.len()
                == recent
            &&& (m.session_id != session_id || m.conn is None) ==> r == Err::<Routes, RequestError>(
                RequestError::SessionMismatch,
            )
            &&& (m.session_id == session_id && m.conn is Some && !spec_seq_after(seq, m.client_seq))
                ==> r == Err::<Routes, RequestError>(RequestError::InvalidSequence)
            &&& r is Ok ==> r == Ok::<Routes, RequestError>(m.routes) && s.client_seq == seq
            &&& r is Ok ==> s.outbox.len() <= m.outbox.len() && s.outbox == m.outbox.skip(
                m.outbox.len() - s.outbox.len(),
            )
            &&& r is Ok ==> forall|i: int|
                0 <= i < m.outbox.len() - s.outbox.len() ==> !spec_seq_after(
                    #[trigger] m.outbox[i].seq,
                    ack,
                ) || elapsed(now, m.outbox[i].sent_at) > config.resume_ttl
            &&& r is Ok && s.outbox.len() > 0 ==> spec_seq_after(s.outbox[0].seq, ack)
        }),
{
    let (s1, r1) = m.accept_sequence(session_id, seq, ack, now, config.resume_ttl);
    assert(s1.request_times == m.request_times);
    if r1 is Ok {
        let ex = outbox_expired(now, config.resume_ttl);
        let l = leading(m.outbox, ex);
        lemma_leading_props(m.outbox, ex);
        let p = SessionModel { client_seq: seq, ..m }.pruned(now, config.resume_ttl);
        assert(p.outbox == m.outbox.skip(l as int));
        let ac = outbox_acknowledged(ack);
        let la = leading(p.outbox, ac);
        lemma_leading_props(p.outbox, ac);
        assert(s1.outbox == p.outbox.skip(la as int));
        assert(s1.outbox =~= m.outbox.skip((l + la) as int));
        assert forall|i: int| 0 <= i < l + la implies !spec_seq_after(#[trigger] m.outbox[i].seq, ack)
            || elapsed(now, m.outbox[i].sent_at) > config.resume_ttl by {
            if i < l {
                assert(ex(m.outbox[i]));
            } else {
                assert(p.outbox[i - l] == m.outbox[i]);
                assert(ac(p.outbox[i - l]));
            }
        }
        if s1.outbox.len() > 0 {
            assert(s1.outbox[0] == p.outbox[la as int]);
        }
    }
    let times = m.request_times;
    lemma_window_split(times, now, config.request_window);
    let kept = times.skip(leading(times, outside_window(now, config.request_window)) as int);
    lemma_trailing_count(kept, now, config.burst_window);
    assert forall|k: int| 0 <= k < kept.len() implies #[trigger] kept[k] <= now by {}
    if config.burst_window >= config.request_window {
        assert forall|k: int| 0 <= k < kept.len() implies now - config.burst_window < #[trigger] kept[k]
            <= now by {}
        lemma_count_all(kept, now - config.burst_window, now as int);
    } else {
        assert(count_between(times, now - config.burst_window, now as int) == count_between(
            kept,
            now - config.burst_window,
            now as int,
        ));
    }
}

/// An authorized reconnect loses nothing that the client still needs: the
/// messages older than `resume_ttl` are gone from the outbox, every other
/// message is still there to replay, and any message that had to be dropped
/// is one the client acknowledged.
pub proof fn law_authorized_reconnect_keeps_replayable<C>(
    m: SessionModel<C>,
    previous_session: i64,
    client_seq: u32,
    ack: u32,
    now: u64,
    config: SessionConfig,
)
    requires
        forall|i: int, j: int|
            0 <= i <= j < m.outbox.len() ==> m.outbox[i].sent_at <= m.outbox[j].sent_at,
    ensures
        ({
            let (s, r) = m.authorize_reconnect(previous_session, client_seq, ack, now, config);
            &&& r is Ok ==> forall|k: int|
                0 <= k < s.outbox.len() ==> elapsed(now, #[trigger] s.outbox[k].sent_at)
                    <= config.resume_ttl
            &&& r is Ok ==> forall|i: int|
                0 <= i < m.outbox.len() && elapsed(now, #[trigger] m.outbox[i].sent_at)
                    <= config.resume_ttl ==> s.outbox.contains(m.outbox[i])
            &&& r is Ok ==> (s.dropped_through matches Some(d) ==> spec_seq_at_or_after(ack, d))
            &&& r is Ok ==> m.session_id == previous_session && spec_seq_after(client_seq, m.client_seq)
            &&& r is Ok ==> (m.disconnected_at matches Some(at) ==> elapsed(now, at) <= config.resume_ttl)
            &&& r is Ok ==> r == Ok::<Routes, ResumeError>(m.routes)
        }),
{
    let (s, r) = m.authorize_reconnect(previous_session, client_seq, ack, now, config);
    let ex = outbox_expired(now, config.resume_ttl);
    let l = leading(m.outbox, ex);
    lemma_leading_props(m.outbox, ex);
    if r is Ok {
        let p = m.pruned(now, config.resume_ttl);
        assert(s.outbox == p.outbox);
        assert(p.outbox == m.outbox.skip(l as int));
        assert forall|k: int| 0 <= k < s.outbox.len() implies elapsed(now, #[trigger] s.outbox[k].sent_at)
            <= config.resume_ttl by {
            assert(s.outbox[k] == m.outbox[l + k]);
            assert(m.outbox[l as int].sent_at <= m.outbox[l + k].sent_at);
            assert(!ex(m.outbox[l as int]));
        }
        assert forall|i: int|
            0 <= i < m.outbox.len() && elapsed(now, #[trigger] m.outbox[i].sent_at)
                <= config.resume_ttl implies s.outbox.contains(m.outbox[i]) by {
            if i < l {
                assert(ex(m.outbox[i]));
            }
            assert(s.outbox[i - l] == m.outbox[i]);
        }
    }
}

/// Every payload of `replay` is that of a message of `outbox` numbered after
/// `ack` and younger than `ttl` at `now`.
pub open spec fn replayed_from(replay: Seq<Seq<u8>>, outbox: Seq<OutboxMessage>, ack: u32, now: u64, ttl: u64) -> bool {
    forall|k: int| 0 <= k < replay.len() ==> #[trigger] sent_after(replay[k], outbox, ack, now, ttl)
}

/// `payload` is that of a message of `outbox` numbered after `ack` and
/// younger than `ttl` at `now`.
pub open spec fn sent_after(payload: Seq<u8>, outbox: Seq<OutboxMessage>, ack: u32, now: u64, ttl: u64) -> bool {
    exists|i: int|
        0 <= i < outbox.len() && #[trigger] outbox[i].payload@ == payload && spec_seq_after(
            outbox[i].seq,
            ack,
        ) && elapsed(now, outbox[i].sent_at) <= ttl
}

/// A completed reconnect replays only what the client still needs: the
/// messages left in the outbox are all younger than `resume_ttl` and the
/// first of them is numbered after `ack` (acknowledged ones left), any
/// message that had to be dropped is one the client acknowledged, and every
/// replayed payload is that of a fresh outbox message numbered after `ack`.
pub proof fn law_completed_reconnect_replays_unacknowledged<C>(
    m: SessionModel<C>,
    previous_session: i64,
    session_id: i64,
    conn: C,
    client_seq: u32,
    ack: u32,
    now: u64,
    config: SessionConfig,
)
    requires
        forall|i: int, j: int|
            0 <= i <= j < m.outbox.len() ==> m.outbox[i].sent_at <= m.outbox[j].sent_at,
    ensures
        ({
            let (s, r) = m.complete_reconnect(previous_session, session_id, conn, client_seq, ack, now, config);
            &&& r is Ok ==> m.session_id == previous_session && spec_seq_after(client_seq, m.client_seq)
            &&& r is Ok ==> forall|k: int|
                0 <= k < s.outbox.len() ==> elapsed(now, #[trigger] s.outbox[k].sent_at)
                    <= config.resume_ttl
            &&& r is Ok ==> (s.dropped_through matches Some(d) ==> spec_seq_at_or_after(ack, d))
            &&& r matches Ok((replay, _)) ==> replayed_from(replay, m.outbox, ack, now, config.resume_ttl)
            &&& r is Ok && s.outbox.len() > 0 ==> spec_seq_after(s.outbox[0].seq, ack)
        }),
{
    broadcast use vstd::seq_lib::group_filter_ensures;

    let (s, r) = m.complete_reconnect(previous_session, session_id, conn, client_seq, ack, now, config);
    let ex = outbox_expired(now, config.resume_ttl);
    let l = leading(m.outbox, ex);
    lemma_leading_props(m.outbox, ex);
    if r is Ok {
        let p = m.pruned(now, config.resume_ttl);
        let a = p.acknowledged(ack);
        let la = leading(p.outbox, outbox_acknowledged(ack));
        lemma_leading_props(p.outbox, outbox_acknowledged(ack));
        assert(p.outbox == m.outbox.skip(l as int));
        assert(a.outbox == p.outbox.skip(la as int));
        assert(s.outbox == a.outbox);
        if s.outbox.len() > 0 {
            assert(s.outbox[0] == p.outbox[la as int]);
        }
        assert forall|k: int| 0 <= k < a.outbox.len() implies a.outbox[k] == m.outbox[l + la + k]
            && 0 <= l + la + k < m.outbox.len() by {
            assert(a.outbox[k] == p.outbox[la + k]);
            assert(p.outbox[la + k] == m.outbox[l + la + k]);
        }
        assert forall|k: int| 0 <= k < s.outbox.len() implies elapsed(now, #[trigger] s.outbox[k].sent_at)
            <= config.resume_ttl by {
            assert(s.outbox[k] == m.outbox[l + la + k]);
            assert(m.outbox[l as int].sent_at <= m.outbox[l + la + k].sent_at);
            assert(!ex(m.outbox[l as int]));
        }
        let f = a.outbox.filter(outbox_unacknowledged(ack));
        let replay = a.replay(ack);
        assert(replay == f.map_values(|x: OutboxMessage| x.payload@));
        assert(r == Ok::<(Seq<Seq<u8>>, bool), ResumeError>((replay, !a.active())));
        assert(replayed_from(replay, m.outbox, ack, now, config.resume_ttl)) by {
            assert forall|k: int| 0 <= k < replay.len() implies #[trigger] sent_after(
                replay[k],
                m.outbox,
                ack,
                now,
                config.resume_ttl,
            ) by {
                assert(replay[k] == f[k].payload@);
                assert(outbox_unacknowledged(ack)(f[k]));
                assert(f.contains(f[k]));
                a.outbox.lemma_filter_contains_rev(outbox_unacknowledged(ack), f[k]);
                let q = choose|q: int| 0 <= q < a.outbox.len() && a.outbox[q] == f[k];
                let i = l + la + q;
                assert(m.outbox[i] == f[k]);
                assert(m.outbox[l as int].sent_at <= m.outbox[i].sent_at);
                assert(!ex(m.outbox[l as int]));
                assert(m.outbox[i].payload@ == replay[k]);
            }
        }
    }
}

/// A completed reconnect takes over the new session: its id, connection and
/// the client's sequence number, online again; from then on an outbound
/// message acknowledges that sequence number, and a request numbered at or
/// before it is refused as out of sequence.
pub proof fn law_completed_reconnect_takes_client_seq<C>(
    m: SessionModel<C>,
    previous_session: i64,
    session_id: i64,
    conn: C,
    client_seq: u32,
    ack: u32,
    now: u64,
    config: SessionConfig,
    seq: u32,
    later_ack: u32,
    later: u64,
)
    ensures
        ({
            let (s, r) = m.complete_reconnect(previous_session, session_id, conn, client_seq, ack, now, config);
            &&& r is Ok ==> s.client_seq == client_seq && s.session_id == session_id && s.conn == Some(conn)
                && s.disconnected_at is None
            &&& r is Ok ==> s.begin_outbound().1.ack == client_seq
            &&& r is Ok && !spec_seq_after(seq, client_seq) ==> s.accept_sequence(
                session_id,
                seq,
                later_ack,
                later,
                config.resume_ttl,
            ).1 == Err::<(), RequestError>(RequestError::InvalidSequence)
        }),
{
}

/// An accepted reconnect counts once against the session's total, which it
/// never passes, and leaves at most `reconnect_window_count` reconnects in
/// the window.
pub proof fn law_reconnects_bounded<C>(
    m: SessionModel<C>,
    previous_session: i64,
    client_seq: u32,
    ack: u32,
    now: u64,
    config: SessionConfig,
)
    ensures
        ({
            let (post, r) = m.authorize_reconnect(previous_session, client_seq, ack, now, config);
            r is Ok ==> {
                &&& post.reconnect_count == m.reconnect_count + 1
                &&& post.reconnect_count <= config.reconnect_total
                &&& post.reconnect_times.len() <= config.reconnect_window_count
            }
        }),
{
}

// ---------------------------------------------------------------------------
// The session store of one Gate
// ---------------------------------------------------------------------------

/// A session that a kick removed: whether it was online, its connection (to be
/// told and closed by the caller) and the header the kick notification carries.
pub struct Kicked<C> {
    pub was_active: bool,
    pub conn: Option<C>,
    pub header: Option<OutboundHeader>,
}

/// A session taken out of the store at shutdown.
pub struct ClosingSession<C> {
    pub gid: i64,
    pub session_id: i64,
    pub routes: Routes,
    pub conn: Option<C>,
}

/// A session stays while online, or while offline for at most the resume TTL.
pub open spec fn retained<C>(s: SessionModel<C>, now: u64, ttl: u64) -> bool {
    s.active() || (s.disconnected_at matches Some(at) && elapsed(now, at) <= ttl)
}

/// The sessions of `m` listed in `ks` that are online.
pub open spec fn count_active<C>(ks: Seq<i64>, m: Map<i64, SessionModel<C>>) -> nat
    decreases ks.len(),
{
    if ks.len() == 0 {
        0
    } else {
        count_active(ks.drop_last(), m) + if m[ks.last()].active() {
            1nat
        } else {
            0nat
        }
    }
}

/// The outbox messages retained by the sessions of `m` listed in `ks`.
pub open spec fn sum_outbox<C>(ks: Seq<i64>, m: Map<i64, SessionModel<C>>) -> nat
    decreases ks.len(),
{
    if ks.len() == 0 {
        0
    } else {
        sum_outbox(ks.drop_last(), m) + m[ks.last()].outbox.len()
    }
}

/// Sessions of one Gate, one per player id, and the limits they run with.
pub struct ClientSessions<C> {
    players: HashMap<i64, ClientSession<C>>,
    config: SessionConfig,
}

impl<C> ClientSessions<C> {
    /// The sessions, by player id.
    pub closed spec fn sessions(&self) -> Map<i64, SessionModel<C>> {
        self.players@.map_values(|s: ClientSession<C>| s@)
    }

    pub closed spec fn spec_config(&self) -> SessionConfig {
        self.config
    }

    proof fn lemma_insert(&self, old_players: Map<i64, ClientSession<C>>, gid: i64, s: ClientSession<C>)
        requires
            self.players@ == old_players.insert(gid, s),
        ensures
            self.sessions() == old_players.map_values(|s: ClientSession<C>| s@).insert(gid, s@),
    {
        assert(self.sessions() =~= old_players.map_values(|s: ClientSession<C>| s@).insert(gid, s@));
    }

    proof fn lemma_remove(&self, old_players: Map<i64, ClientSession<C>>, gid: i64)
        requires
            self.players@ == old_players.remove(gid),
        ensures
            self.sessions() == old_players.map_values(|s: ClientSession<C>| s@).remove(gid),
    {
        assert(self.sessions() =~= old_players.map_values(|s: ClientSession<C>| s@).remove(gid));
    }

    /// An empty store; the configuration must be valid.
    pub fn new(config: SessionConfig) -> (r: Self)
        requires
            config.spec_valid(),
        ensures
            r.sessions() == Map::<i64, SessionModel<C>>::empty(),
            r.spec_config() == config,
    {
        let r = ClientSessions { players: HashMap::new(), config };
        proof {
            assert(r.sessions() =~= Map::<i64, SessionModel<C>>::empty());
        }
        r
    }

    pub fn config(&self) -> (r: SessionConfig)
        ensures
            r == self.spec_config(),
    {
        self.config
    }

    /// Takes the session of `gid` out of the map, if there is one.
    fn take(&mut self, gid: i64) -> (r: Option<ClientSession<C>>)
        ensures
            final(self).config == old(self).config,
            final(self).players@ == old(self).players@.remove(gid),
            r is Some <==> old(self).players@.contains_key(gid),
            r matches Some(s) ==> s == old(self).players@[gid],
    {
        self.players.remove(&gid)
    }

    fn put(&mut self, gid: i64, s: ClientSession<C>)
        ensures
            final(self).config == old(self).config,
            final(self).players@ == old(self).players@.insert(gid, s),
    {
        self.players.insert(gid, s);
    }

    /// Installs a fresh session for a player that logged in; answers whether
    /// the player was not online before (an offline or missing session).
    pub fn install_login(&mut self, gid: i64, session_id: i64, conn: C, routes: Routes, client_seq: u32) -> (r: bool)
        ensures
            final(self).spec_config() == old(self).spec_config(),
            final(self).sessions() == old(self).sessions().insert(
                gid,
                SessionModel {
                    session_id,
                    conn: Some(conn),
                    routes,
                    server_seq: 0,
                    client_seq,
                    outbox: Seq::empty(),
                    dropped_through: None,
                    disconnected_at: None,
                    reconnect_count: 0,
                    reconnect_times: Seq::empty(),
                    request_times: Seq::empty(),
                },
            ),
            r == !(old(self).sessions().contains_key(gid) && old(self).sessions()[gid].active()),
    {
        let previous_active = match self.players.get(&gid) {
            Some(s) => s.active(),
            None => false,
        };
        let ghost before = self.players@;
        let s = ClientSession::new(session_id, conn, routes, client_seq);
        self.players.insert(gid, s);
        proof {
            self.lemma_insert(before, gid, s);
        }
        !previous_active
    }

    pub fn authorize_reconnect(&mut self, gid: i64, previous_session: i64, client_seq: u32, ack: u32, now: u64) -> (r:
        Result<Routes, ResumeError>)
        ensures
            final(self).spec_config() == old(self).spec_config(),
            !old(self).sessions().contains_key(gid) ==> r == Err::<Routes, ResumeError>(ResumeError::Missing)
                && final(self).sessions() == old(self).sessions(),
            old(self).sessions().contains_key(gid) ==> ({
                let (post, res) = old(self).sessions()[gid].authorize_reconnect(
                    previous_session,
                    client_seq,
                    ack,
                    now,
                    old(self).spec_config(),
                );
                r == res && final(self).sessions() == old(self).sessions().insert(gid, post)
            }),
    {
        let ghost before = self.players@;
        let config = self.config;
        match self.take(gid) {
            None => {
                proof {
                    assert(before.remove(gid) =~= before);
                }
                Err(ResumeError::Missing)
            },
            Some(mut s) => {
                let r = s.authorize_reconnect(previous_session, client_seq, ack, now, config);
                let ghost after = s;
                self.put(gid, s);
                proof {
                    assert(before.remove(gid).insert(gid, after) =~= before.insert(gid, after));
                    self.lemma_insert(before, gid, after);
                }
                r
            },
        }
    }

    pub fn complete_reconnect(
        &mut self,
        gid: i64,
        previous_session: i64,
        session_id: i64,
        conn: C,
        client_seq: u32,
        ack: u32,
        now: u64,
    ) -> (r: Result<ReconnectResult, ResumeError>)
        ensures
            final(self).spec_config() == old(self).spec_config(),
            !old(self).sessions().contains_key(gid) ==> r is Err && r->Err_0 == ResumeError::Missing
                && final(self).sessions() == old(self).sessions(),
            old(self).sessions().contains_key(gid) ==> ({
                let (post, res) = old(self).sessions()[gid].complete_reconnect(
                    previous_session,
                    session_id,
                    conn,
                    client_seq,
                    ack,
                    now,
                    old(self).spec_config(),
                );
                &&& final(self).sessions() == old(self).sessions().insert(gid, post)
                &&& r is Ok <==> res is Ok
                &&& r matches Err(e) ==> res == Err::<(Seq<Seq<u8>>, bool), ResumeError>(e)
                &&& r matches Ok(v) ==> (v.replay@.map_values(|p: Vec<u8>| p@), v.became_active)
                    == res->Ok_0
            }),
    {
        let ghost before = self.players@;
        let config = self.config;
        match self.take(gid) {
            None => {
                proof {
                    assert(before.remove(gid) =~= before);
                }
                Err(ResumeError::Missing)
            },
            Some(mut s) => {
                let r = s.complete_reconnect(previous_session, session_id, conn, client_seq, ack, now, config);
                let ghost after = s;
                self.put(gid, s);
                proof {
                    assert(before.remove(gid).insert(gid, after) =~= before.insert(gid, after));
                    self.lemma_insert(before, gid, after);
                }
                r
            },
        }
    }

    /// Admits one client request of an online session.
    pub fn accept_request(&mut self, gid: i64, session_id: i64, seq: u32, ack: u32, now: u64) -> (r: Result<
        Routes,
        RequestError,
    >)
        ensures
            final(self).spec_config() == old(self).spec_config(),
            !old(self).sessions().contains_key(gid) ==> r == Err::<Routes, RequestError>(
                RequestError::SessionMismatch,
            ) && final(self).sessions() == old(self).sessions(),
            old(self).sessions().contains_key(gid) ==> ({
                let (post, res) = old(self).sessions()[gid].accept_request(
                    session_id,
                    seq,
                    ack,
                    now,
                    old(self).spec_config(),
                );
                r == res && final(self).sessions() == old(self).sessions().insert(gid, post)
            }),
    {
        let ghost before = self.players@;
        let config = self.config;
        match self.take(gid) {
            None => {
                proof {
                    assert(before.remove(gid) =~= before);
                }
                Err(RequestError::SessionMismatch)
            },
            Some(mut s) => {
                let r = s.accept_request(session_id, seq, ack, now, config);
                let ghost after = s;
                self.put(gid, s);
                proof {
                    assert(before.remove(gid).insert(gid, after) =~= before.insert(gid, after));
                    self.lemma_insert(before, gid, after);
                }
                r
            },
        }
    }

    /// Takes a client acknowledgement (or ping) of an online session: it
    /// advances the client sequence and releases acknowledged outbox messages,
    /// without counting against the request rate.
    pub fn acknowledge(&mut self, gid: i64, session_id: i64, seq: u32, ack: u32, now: u64) -> (r: Result<
        (),
        RequestError,
    >)
        ensures
            final(self).spec_config() == old(self).spec_config(),
            !old(self).sessions().contains_key(gid) ==> r == Err::<(), RequestError>(
                RequestError::SessionMismatch,
            ) && final(self).sessions() == old(self).sessions(),
            old(self).sessions().contains_key(gid) ==> ({
                let (post, res) = old(self).sessions()[gid].accept_sequence(
                    session_id,
                    seq,
                    ack,
                    now,
                    old(self).spec_config().resume_ttl,
                );
                r == res && final(self).sessions() == old(self).sessions().insert(gid, post)
            }),
    {
        let ghost before = self.players@;
        let ttl = self.config.resume_ttl;
        match self.take(gid) {
            None => {
                proof {
                    assert(before.remove(gid) =~= before);
                }
                Err(RequestError::SessionMismatch)
            },
            Some(mut s) => {
                let r = s.accept_sequence(session_id, seq, ack, now, ttl);
                let ghost after = s;
                self.put(gid, s);
                proof {
                    assert(before.remove(gid).insert(gid, after) =~= before.insert(gid, after));
                    self.lemma_insert(before, gid, after);
                }
                r
            },
        }
    }

    /// Starts sending a message to the online session `session_id` of `gid`:
    /// numbers it and answers its header. `None` when that session is not the
    /// current online one.
    pub fn begin_send(&mut self, gid: i64, session_id: i64) -> (r: Option<OutboundHeader>)
        ensures
            final(self).spec_config() == old(self).spec_config(),
            ({
                let m = old(self).sessions();
                if m.contains_key(gid) && m[gid].session_id == session_id && m[gid].active() {
                    let (post, h) = m[gid].begin_outbound();
                    r == Some(h) && final(self).sessions() == m.insert(gid, post)
                } else {
                    r is None && final(self).sessions() == m
                }
            }),
    {
        let ghost before = self.players@;
        match self.take(gid) {
            None => {
                proof {
                    assert(before.remove(gid) =~= before);
                }
                None
            },
            Some(mut s) => {
                let r = if s.session_id != session_id || !s.active() {
                    None
                } else {
                    Some(s.begin_outbound())
                };
                let ghost after = s;
                self.put(gid, s);
                proof {
                    assert(before.remove(gid).insert(gid, after) =~= before.insert(gid, after));
                    self.lemma_insert(before, gid, after);
                    if r is None {
                        assert(after == before[gid]);
                        assert(before.insert(gid, after) =~= before);
                    }
                }
                r
            },
        }
    }

    /// Keeps the message just numbered for `gid` in its outbox for replay.
    pub fn retain_sent(&mut self, gid: i64, payload: Vec<u8>, now: u64)
        requires
            old(self).spec_config().spec_valid(),
        ensures
            final(self).spec_config() == old(self).spec_config(),
            ({
                let m = old(self).sessions();
                if m.contains_key(gid) {
                    final(self).sessions() == m.insert(
                        gid,
                        m[gid].retain_outbound(payload, now, old(self).spec_config()),
                    )
                } else {
                    final(self).sessions() == m
                }
            }),
    {
        let ghost before = self.players@;
        let config = self.config;
        match self.take(gid) {
            None => {
                proof {
                    assert(before.remove(gid) =~= before);
                }
            },
            Some(mut s) => {
                s.retain_outbound(payload, now, config);
                let ghost after = s;
                self.put(gid, s);
                proof {
                    assert(before.remove(gid).insert(gid, after) =~= before.insert(gid, after));
                    self.lemma_insert(before, gid, after);
                }
            },
        }
    }

    /// Sends a message to the online session `session_id` of `gid`: numbers
    /// it, has `encode` frame it with its header, and keeps the frame for
    /// replay when the message is `resumable`. Answers the frame to hand to
    /// the connection; refused when that session is not the current online
    /// one.
    pub fn send<F: FnOnce(OutboundHeader) -> Vec<u8>>(
        &mut self,
        gid: i64,
        session_id: i64,
        resumable: bool,
        now: u64,
        encode: F,
    ) -> (r: Result<Vec<u8>, SendError>)
        requires
            old(self).spec_config().spec_valid(),
            forall|h: OutboundHeader| #[trigger] encode.requires((h,)),
        ensures
            final(self).spec_config() == old(self).spec_config(),
            ({
                let m = old(self).sessions();
                if m.contains_key(gid) && m[gid].session_id == session_id && m[gid].active() {
                    let (post, h) = m[gid].begin_outbound();
                    r matches Ok(payload) && encode.ensures((h,), payload) && if resumable {
                        exists|kept: Vec<u8>|
                            kept@ == payload@ && #[trigger] final(self).sessions() == m.insert(
                                gid,
                                post.retain_outbound(kept, now, old(self).spec_config()),
                            )
                    } else {
                        final(self).sessions() == m.insert(gid, post)
                    }
                } else {
                    r == Err::<Vec<u8>, SendError>(SendError::SessionMismatch) && final(self).sessions()
                        == m
                }
            }),
    {
        match self.begin_send(gid, session_id) {
            None => Err(SendError::SessionMismatch),
            Some(header) => {
                let payload = encode(header);
                if resumable {
                    let kept = copy_bytes(&payload);
                    self.retain_sent(gid, kept, now);
                    proof {
                        assert(kept@ == payload@);
                    }
                }
                Ok(payload)
            },
        }
    }

    /// The connection of the session of `gid`, while it is online.
    pub fn connection(&self, gid: i64) -> (r: Option<&C>)
        ensures
            match r {
                Some(c) => self.sessions().contains_key(gid) && self.sessions()[gid].conn == Some(*c),
                None => !self.sessions().contains_key(gid) || self.sessions()[gid].conn is None,
            },
    {
        match self.players.get(&gid) {
            Some(s) => s.conn.as_ref(),
            None => None,
        }
    }

    /// The id of the online session of `gid`.
    pub fn current_session(&self, gid: i64) -> (r: Option<i64>)
        ensures
            r == (if self.sessions().contains_key(gid) && self.sessions()[gid].active() {
                Some(self.sessions()[gid].session_id)
            } else {
                None::<i64>
            }),
    {
        match self.players.get(&gid) {
            Some(s) => if s.active() {
                Some(s.session_id)
            } else {
                None
            },
            None => None,
        }
    }

    /// The connection of session `session_id` of `gid` went away: the session
    /// stays, offline since `now`, for a later resume. Answers its routes.
    pub fn disconnect(&mut self, gid: i64, session_id: i64, now: u64) -> (r: Option<Routes>)
        ensures
            final(self).spec_config() == old(self).spec_config(),
            ({
                let m = old(self).sessions();
                if m.contains_key(gid) && m[gid].session_id == session_id && m[gid].active() {
                    r == Some(m[gid].routes) && final(self).sessions() == m.insert(
                        gid,
                        SessionModel { conn: None, disconnected_at: Some(now), ..m[gid] },
                    )
                } else {
                    r is None && final(self).sessions() == m
                }
            }),
    {
        let ghost before = self.players@;
        match self.take(gid) {
            None => {
                proof {
                    assert(before.remove(gid) =~= before);
                }
                None
            },
            Some(mut s) => {
                let r = if s.session_id != session_id || !s.active() {
                    None
                } else {
                    s.conn = None;
                    s.disconnected_at = Some(now);
                    Some(s.routes)
                };
                let ghost after = s;
                self.put(gid, s);
                proof {
                    assert(before.remove(gid).insert(gid, after) =~= before.insert(gid, after));
                    self.lemma_insert(before, gid, after);
                    if r is None {
                        assert(after == before[gid]);
                        assert(before.insert(gid, after) =~= before);
                    } else {
                        assert(after@ =~= SessionModel {
                            conn: None,
                            disconnected_at: Some(now),
                            ..before[gid]@
                        });
                    }
                }
                r
            },
        }
    }

    /// Removes session `session_id` of `gid`. Answers whether it was online,
    /// hands back its connection and, when it had one, numbers the kick
    /// notification. `None` when `session_id` is not the session of `gid`.
    pub fn kick(&mut self, gid: i64, session_id: i64) -> (r: Option<Kicked<C>>)
        ensures
            final(self).spec_config() == old(self).spec_config(),
            ({
                let m = old(self).sessions();
                if m.contains_key(gid) && m[gid].session_id == session_id {
                    &&& r is Some
                    &&& r->Some_0.was_active == m[gid].active()
                    &&& r->Some_0.conn == m[gid].conn
                    &&& r->Some_0.header == (if m[gid].active() {
                        Some(m[gid].begin_outbound().1)
                    } else {
                        None::<OutboundHeader>
                    })
                    &&& final(self).sessions() == m.remove(gid)
                } else {
                    r is None && final(self).sessions() == m
                }
            }),
    {
        let ghost before = self.players@;
        match self.take(gid) {
            None => {
                proof {
                    assert(before.remove(gid) =~= before);
                }
                None
            },
            Some(mut s) => {
                if s.session_id != session_id {
                    let ghost after = s;
                    self.put(gid, s);
                    proof {
                        assert(before.remove(gid).insert(gid, after) =~= before);
                        assert(self.sessions() =~= old(self).sessions());
                    }
                    return None;
                }
                let header = if s.active() {
                    Some(s.begin_outbound())
                } else {
                    None
                };
                let was_active = s.conn.is_some();
                let conn = s.conn.take();
                proof {
                    self.lemma_remove(before, gid);
                }
                Some(Kicked { was_active, conn, header })
            },
        }
    }

    /// Forgets session `session_id` of `gid` (a logout); answers whether it
    /// was the current session.
    pub fn invalidate(&mut self, gid: i64, session_id: i64) -> (r: bool)
        ensures
            final(self).spec_config() == old(self).spec_config(),
            ({
                let m = old(self).sessions();
                if m.contains_key(gid) && m[gid].session_id == session_id {
                    r && final(self).sessions() == m.remove(gid)
                } else {
                    !r && final(self).sessions() == m
                }
            }),
    {
        let matches = match self.players.get(&gid) {
            Some(s) => s.session_id == session_id,
            None => false,
        };
        if matches {
            let ghost before = self.players@;
            let _ = self.take(gid);
            proof {
                self.lemma_remove(before, gid);
            }
        }
        matches
    }

    /// The player ids that have a session, each once, in the map's own order.
    fn player_ids(&self) -> (r: Vec<i64>)
        ensures
            r@.no_duplicates(),
            r@.to_set() == self.sessions().dom(),
            r@.len() == self.sessions().dom().len(),
    {
        let mut out: Vec<i64> = Vec::new();
        let ghost all = vstd::std_specs::hash::spec_keys_iter(&self.players).remaining().unref();
        proof {
            vstd::std_specs::hash::axiom_spec_keys_iter(&self.players);
        }
        for k in it: self.players.keys()
            invariant
                it.seq().unref() == all,
                out@ == all.take(it.index()),
        {
            proof {
                assert(all.take(it.index() + 1) =~= all.take(it.index()).push(*k));
            }
            out.push(*k);
        }
        proof {
            assert(out@ =~= all);
            assert(self.sessions().dom() =~= self.players@.dom());
            all.unique_seq_to_set();
        }
        out
    }

    /// Forgets the offline sessions whose resume TTL has passed; answers how
    /// many it forgot.
    pub fn prune_expired(&mut self, now: u64) -> (r: usize)
        ensures
            final(self).spec_config() == old(self).spec_config(),
            forall|g: i64|
                #[trigger] final(self).sessions().contains_key(g) <==> old(self).sessions().contains_key(g)
                    && retained(old(self).sessions()[g], now, old(self).spec_config().resume_ttl),
            forall|g: i64| #[trigger]
                final(self).sessions().contains_key(g) ==> final(self).sessions()[g] == old(
                    self,
                ).sessions()[g],
            r == old(self).sessions().dom().len() - final(self).sessions().dom().len(),
    {
        let ids = self.player_ids();
        let ttl = self.config.resume_ttl;
        let ghost m0 = self.sessions();
        let mut removed: usize = 0;
        let mut i: usize = 0;
        proof {
            assert(self.sessions().dom() =~= self.players@.dom());
        }
        while i < ids.len()
            invariant
                i <= ids@.len(),
                ids@.no_duplicates(),
                ids@.to_set() == m0.dom(),
                ids@.len() == m0.dom().len(),
                ttl == self.config.resume_ttl,
                self.config == old(self).config,
                m0 == old(self).sessions(),
                self.sessions().dom().finite(),
                m0.dom().finite(),
                forall|g: i64| #[trigger]
                    self.sessions().contains_key(g) <==> m0.contains_key(g) && (!ids@.take(i as int).contains(g)
                        || retained(m0[g], now, ttl)),
                forall|g: i64| #[trigger] self.sessions().contains_key(g) ==> self.sessions()[g] == m0[g],
                removed <= i,
                removed as int == m0.dom().len() - self.sessions().dom().len(),
            decreases ids.len() - i,
        {
            let gid = ids[i];
            proof {
                assert(ids@.to_set().contains(gid));
                assert(!ids@.take(i as int).contains(gid)) by {
                    if ids@.take(i as int).contains(gid) {
                        let j = choose|j: int| 0 <= j < i && ids@.take(i as int)[j] == gid;
                        assert(ids@[j] == ids@[i as int]);
                    }
                }
                assert(self.sessions().contains_key(gid));
                assert(self.sessions().dom() =~= self.players@.dom());
            }
            let keep = match self.players.get(&gid) {
                Some(s) => s.active() || match s.disconnected_at {
                    Some(at) => elapsed_ms(now, at) <= ttl,
                    None => false,
                },
                None => true,
            };
            let ghost before = self.players@;
            let ghost before_sessions = self.sessions();
            if !keep {
                let _ = self.take(gid);
                removed = removed + 1;
                proof {
                    self.lemma_remove(before, gid);
                    assert(self.sessions().dom() =~= before_sessions.dom().remove(gid));
                }
            }
            proof {
                assert(ids@.take(i + 1) =~= ids@.take(i as int).push(gid));
                assert forall|g: i64| #[trigger]
                    self.sessions().contains_key(g) <==> m0.contains_key(g) && (!ids@.take(i + 1).contains(g)
                        || retained(m0[g], now, ttl)) by {
                    if g == gid {
                        assert(ids@.take(i + 1).contains(g)) by {
                            assert(ids@.take(i + 1)[i as int] == gid);
                        }
                    } else {
                        lemma_push_contains(ids@.take(i as int), gid, g);
                    }
                }
            }
            i = i + 1;
        }
        proof {
            assert(ids@.take(ids@.len() as int) =~= ids@);
            assert forall|g: i64| m0.contains_key(g) implies ids@.contains(g) by {
                assert(ids@.to_set().contains(g));
            }
        }
        removed
    }

    /// Counts the sessions, the online and offline ones, and the outbox
    /// messages they retain (saturating at `usize::MAX`).
    pub fn stats(&self) -> (r: StoreStats)
        ensures
            r.players == self.sessions().dom().len(),
            r.active + r.offline == r.players,
            exists|ks: Seq<i64>|
                {
                    &&& ks.no_duplicates()
                    &&& ks.to_set() == self.sessions().dom()
                    &&& r.active == count_active(ks, self.sessions())
                    &&& r.outbox_messages == if sum_outbox(ks, self.sessions()) > usize::MAX {
                        usize::MAX as nat
                    } else {
                        sum_outbox(ks, self.sessions())
                    }
                },
    {
        let ids = self.player_ids();
        let ghost m = self.sessions();
        let mut active: usize = 0;
        let mut offline: usize = 0;
        let mut outbox: usize = 0;
        let mut i: usize = 0;
        while i < ids.len()
            invariant
                i <= ids@.len(),
                m == self.sessions(),
                ids@.to_set() == m.dom(),
                active + offline == i,
                active == count_active(ids@.take(i as int), m),
                outbox == if sum_outbox(ids@.take(i as int), m) > usize::MAX {
                    usize::MAX as nat
                } else {
                    sum_outbox(ids@.take(i as int), m)
                },
            decreases ids.len() - i,
        {
            let gid = ids[i];
            proof {
                assert(ids@.to_set().contains(gid));
                assert(self.sessions().dom() =~= self.players@.dom());
                assert(ids@.take(i + 1).drop_last() =~= ids@.take(i as int));
                assert(ids@.take(i + 1).last() == gid);
            }
            match self.players.get(&gid) {
                Some(s) => {
                    if s.active() {
                        active = active + 1;
                    } else {
                        offline = offline + 1;
                    }
                    let len = s.outbox.len();
                    if outbox > usize::MAX - len {
                        outbox = usize::MAX;
                    } else {
                        outbox = outbox + len;
                    }
                },
                None => {},
            }
            i = i + 1;
        }
        proof {
            assert(ids@.take(ids@.len() as int) =~= ids@);
            assert(self.sessions().dom() =~= self.players@.dom());
        }
        StoreStats { players: self.players.len(), active, offline, outbox_messages: outbox }
    }

    /// Empties the store at shutdown, handing back every session's player id,
    /// session id, routes and connection (to be closed by the caller).
    pub fn drain(&mut self) -> (r: Vec<ClosingSession<C>>)
        ensures
            final(self).spec_config() == old(self).spec_config(),
            final(self).sessions() == Map::<i64, SessionModel<C>>::empty(),
            r@.len() == old(self).sessions().dom().len(),
            r@.map_values(|c: ClosingSession<C>| c.gid).no_duplicates(),
            r@.map_values(|c: ClosingSession<C>| c.gid).to_set() == old(self).sessions().dom(),
            forall|i: int|
                0 <= i < r@.len() ==> {
                    let s = old(self).sessions()[#[trigger] r@[i].gid];
                    &&& r@[i].session_id == s.session_id
                    &&& r@[i].routes == s.routes
                    &&& r@[i].conn == s.conn
                },
    {
        let ids = self.player_ids();
        let ghost m0 = self.sessions();
        let mut out: Vec<ClosingSession<C>> = Vec::new();
        let mut i: usize = 0;
        proof {
            assert(self.sessions().dom() =~= self.players@.dom());
        }
        while i < ids.len()
            invariant
                i <= ids@.len(),
                ids@.no_duplicates(),
                ids@.to_set() == m0.dom(),
                ids@.len() == m0.dom().len(),
                m0 == old(self).sessions(),
                self.config == old(self).config,
                out@.len() == i,
                forall|j: int| 0 <= j < i ==> #[trigger] out@[j].gid == ids@[j],
                forall|j: int|
                    0 <= j < i ==> {
                        let s = m0[#[trigger] out@[j].gid];
                        &&& out@[j].session_id == s.session_id
                        &&& out@[j].routes == s.routes
                        &&& out@[j].conn == s.conn
                    },
                forall|g: i64| #[trigger]
                    self.sessions().contains_key(g) <==> m0.contains_key(g) && !ids@.take(i as int).contains(g),
                forall|g: i64| #[trigger] self.sessions().contains_key(g) ==> self.sessions()[g] == m0[g],
            decreases ids.len() - i,
        {
            let gid = ids[i];
            proof {
                assert(ids@.to_set().contains(gid));
                assert(!ids@.take(i as int).contains(gid)) by {
                    if ids@.take(i as int).contains(gid) {
                        let j = choose|j: int| 0 <= j < i && ids@.take(i as int)[j] == gid;
                        assert(ids@[j] == ids@[i as int]);
                    }
                }
                assert(self.sessions().contains_key(gid));
                assert(self.sessions().dom() =~= self.players@.dom());
            }
            let ghost before = self.players@;
            let taken = self.take(gid);
            proof {
                self.lemma_remove(before, gid);
            }
            match taken {
                Some(s) => {
                    out.push(ClosingSession { gid, session_id: s.session_id, routes: s.routes, conn: s.conn });
                },
                None => {},
            }
            proof {
                assert(ids@.take(i + 1) =~= ids@.take(i as int).push(gid));
                assert forall|g: i64| #[trigger]
                    self.sessions().contains_key(g) <==> m0.contains_key(g) && !ids@.take(i + 1).contains(g) by {
                    if g == gid {
                        assert(ids@.take(i + 1)[i as int] == gid);
                    } else {
                        lemma_push_contains(ids@.take(i as int), gid, g);
                    }
                }
            }
            i = i + 1;
        }
        proof {
            assert(ids@.take(ids@.len() as int) =~= ids@);
            assert forall|g: i64| !self.sessions().contains_key(g) by {
                if m0.contains_key(g) {
                    assert(ids@.to_set().contains(g));
                }
            }
            assert(self.sessions() =~= Map::<i64, SessionModel<C>>::empty());
            assert(out@.map_values(|c: ClosingSession<C>| c.gid) =~= ids@);
        }
        out
    }
}

} // verus!
