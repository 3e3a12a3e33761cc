//! The Auth service's rules: which login and role requests it accepts, how
//! much room the Gates have, when a player waits in the login queue, which
//! endpoints of a Gate a client is given, and the account-login and
//! role-request flows, one step per piece of outside work.

use crate::player::{decimal, default_name};
use crate::status::{Status, StatusCode};
use vstd::prelude::*;

verus! {

/// The longest account name, in bytes.
pub const MAX_ACCOUNT_BYTES: usize = 64;

/// The longest credential, in bytes.
pub const MAX_CREDENTIAL_BYTES: usize = 256;

/// The shortest device id, in bytes.
pub const MIN_DEVICE_ID_BYTES: usize = 8;

// ---------------------------------------------------------------------------
// Requests
// ---------------------------------------------------------------------------

/// Why a login request is refused before anything is looked up, if it is:
/// no device, or an account, credential or device id of the wrong length.
pub fn login_rejection(account: &str, credential: &str, device_id: Option<&str>) -> (r: Option<
    Status,
>)
    ensures
        device_id is None ==> (r matches Some(s) && s.code == StatusCode::InvalidArgument
            && s.message@ == "device is required"@),
        device_id matches Some(d) ==> {
            let ok = account@.len() > 0 && account.len() <= MAX_ACCOUNT_BYTES && credential@.len() > 0
                && credential.len() <= MAX_CREDENTIAL_BYTES && d.len() >= MIN_DEVICE_ID_BYTES;
            &&& ok ==> r is None
            &&& !ok ==> (r matches Some(s) && s.code == StatusCode::InvalidArgument && s.message@
                == "invalid Auth login request"@)
        },
{
    match device_id {
        None => Some(Status::error(StatusCode::InvalidArgument, "device is required")),
        Some(d) => {
            if account.is_empty() || account.len() > MAX_ACCOUNT_BYTES || credential.is_empty()
                || credential.len() > MAX_CREDENTIAL_BYTES || d.len() < MIN_DEVICE_ID_BYTES {
                Some(Status::error(StatusCode::InvalidArgument, "invalid Auth login request"))
            } else {
                None
            }
        },
    }
}

/// What the two login rate limiters decide. Each is `Some(allowed)` when it
/// answered and `None` when it failed; a failure wins over a refusal.
pub fn login_limit_status(global: Option<bool>, per_ip: Option<bool>) -> (r: Option<Status>)
    ensures
        (global is None || per_ip is None) ==> (r matches Some(s) && s.code
            == StatusCode::Internal && s.message@ == "login limiter failed"@),
        global == Some(true) && per_ip == Some(true) ==> r is None,
        (global matches Some(g) && per_ip matches Some(p) && !(g && p)) ==> (r matches Some(s)
            && s.code == StatusCode::RateLimited && s.message@ == "login rate exceeded"@),
{
    match (global, per_ip) {
        (Some(g), Some(p)) => {
            if g && p {
                None
            } else {
                Some(Status::error(StatusCode::RateLimited, "login rate exceeded"))
            }
        },
        _ => Some(Status::error(StatusCode::Internal, "login limiter failed")),
    }
}

/// A role request names a player, carries a token and a device id long
/// enough.
pub fn role_request_rejection(gid: i64, token: &str, device_id: &str) -> (r: Option<Status>)
    ensures
        (gid > 0 && token@.len() > 0 && device_id.len() >= MIN_DEVICE_ID_BYTES) ==> r is None,
        !(gid > 0 && token@.len() > 0 && device_id.len() >= MIN_DEVICE_ID_BYTES) ==> (r matches Some(
            s,
        ) && s.code == StatusCode::InvalidArgument && s.message@ == "invalid role request"@),
{
    if gid <= 0 || token.is_empty() || device_id.len() < MIN_DEVICE_ID_BYTES {
        Some(Status::error(StatusCode::InvalidArgument, "invalid role request"))
    } else {
        None
    }
}

// ---------------------------------------------------------------------------
// Accounts and tokens
// ---------------------------------------------------------------------------

/// A role of an account: the player it plays.
#[derive(Debug)]
pub struct Role {
    pub gid: i64,
    pub sid: i32,
    pub name: String,
    pub level: i32,
    pub icon: i32,
}

/// A stored account: its name, the hash of its credential, its roles and
/// when it was created, in seconds.
#[derive(Debug)]
pub struct AccountData {
    pub account: String,
    pub credential_hash: String,
    pub roles: Vec<Role>,
    pub created_at: i64,
}

/// The account a first login creates: one role for the player id it was
/// given, named after that id, at level 1.
pub fn new_account(account: &str, credential_hash: String, gid: i64, created_at: i64) -> (r:
    AccountData)
    ensures
        r.account@ == account@,
        r.credential_hash == credential_hash,
        r.created_at == created_at,
        r.roles@.len() == 1,
        r.roles@[0].gid == gid,
        r.roles@[0].sid == 0,
        r.roles@[0].name@ == "Player"@ + decimal(gid as int),
        r.roles@[0].level == 1,
        r.roles@[0].icon == 0,
{
    let role = Role { gid, sid: 0, name: default_name(gid), level: 1, icon: 0 };
    let mut roles: Vec<Role> = Vec::new();
    roles.push(role);
    AccountData { account: account.to_owned(), credential_hash, roles, created_at }
}

/// A stored account accepts a login whose credential hashes to its own hash.
pub fn credential_status(stored_hash: &String, presented_hash: &String) -> (r: Option<Status>)
    ensures
        stored_hash@ == presented_hash@ ==> r is None,
        stored_hash@ != presented_hash@ ==> (r matches Some(s) && s.code
            == StatusCode::Unauthenticated && s.message@ == "credential mismatch"@),
{
    if *stored_hash == *presented_hash {
        None
    } else {
        Some(Status::error(StatusCode::Unauthenticated, "credential mismatch"))
    }
}

/// The player a login signs in as: the account's first role.
pub fn login_role(account: &AccountData) -> (r: Result<i64, Status>)
    ensures
        account.roles@.len() > 0 ==> r == Ok::<i64, Status>(account.roles@[0].gid),
        account.roles@.len() == 0 ==> (r matches Err(s) && s.code == StatusCode::Conflict
            && s.message@ == "account has no role"@),
{
    if account.roles.len() == 0 {
        Err(Status::error(StatusCode::Conflict, "account has no role"))
    } else {
        Ok(account.roles[0].gid)
    }
}

/// A role request's token must decode to the player it names.
pub fn token_status(decoded_gid: Option<i64>, gid: i64) -> (r: Option<Status>)
    ensures
        decoded_gid == Some(gid) ==> r is None,
        decoded_gid != Some(gid) ==> (r matches Some(s) && s.code == StatusCode::Unauthenticated
            && s.message@ == "token verification failed"@),
{
    match decoded_gid {
        Some(g) => {
            if g == gid {
                None
            } else {
                Some(Status::error(StatusCode::Unauthenticated, "token verification failed"))
            }
        },
        None => Some(Status::error(StatusCode::Unauthenticated, "token verification failed")),
    }
}

/// A role request's token must be the one the player's online record holds.
pub fn online_token_status(online_token: Option<&str>, token: &str) -> (r: Option<Status>)
    ensures
        (online_token matches Some(t) && t@ == token@) ==> r is None,
        !(online_token matches Some(t) && t@ == token@) ==> (r matches Some(s) && s.code
            == StatusCode::Unauthenticated && s.message@ == "token state mismatch"@),
{
    match online_token {
        Some(t) => {
            if str_equal(t, token) {
                None
            } else {
                Some(Status::error(StatusCode::Unauthenticated, "token state mismatch"))
            }
        },
        None => Some(Status::error(StatusCode::Unauthenticated, "token state mismatch")),
    }
}

/// Whether two strings hold the same characters.
pub fn str_equal(a: &str, b: &str) -> (r: bool)
    ensures
        r == (a@ == b@),
{
    let x = a.to_owned();
    let y = b.to_owned();
    x == y
}

/// What the role-admission limiter decided: `Some(allowed)` when it
/// answered, `None` when it failed.
#[derive(Clone, Copy, Debug, PartialEq, Eq, Structural)]
pub enum AdmissionStep {
    /// Go on to pick a Gate.
    Proceed,
    /// Answer with the player's place in the queue.
    Queue,
    /// Answer that admission failed.
    Failed,
}

/// An allowed admission goes on, a refused one waits in the queue, a failed
/// limiter fails the request.
pub fn admission_step(allowed: Option<bool>) -> (r: AdmissionStep)
    ensures
        allowed == Some(true) ==> r == AdmissionStep::Proceed,
        allowed == Some(false) ==> r == AdmissionStep::Queue,
        allowed is None ==> r == AdmissionStep::Failed,
{
    match allowed {
        Some(true) => AdmissionStep::Proceed,
        Some(false) => AdmissionStep::Queue,
        None => AdmissionStep::Failed,
    }
}

// ---------------------------------------------------------------------------
// Gate capacity and the login queue
// ---------------------------------------------------------------------------

/// What Auth knows of one Gate when it admits players.
#[derive(Clone, Copy, Debug, PartialEq, Eq, Structural)]
pub struct GateLoad {
    pub enable: bool,
    pub healthy: bool,
    pub online_count: i32,
}

/// The room one Gate has: the players it may still take when it is enabled
/// and healthy, none otherwise.
pub open spec fn gate_room(g: GateLoad, capacity: i32) -> int {
    if g.enable && g.healthy && capacity - g.online_count > 0 {
        capacity - g.online_count
    } else {
        0
    }
}

/// The room of all the Gates together.
pub open spec fn total_room(gates: Seq<GateLoad>, capacity: i32) -> int
    decreases gates.len(),
{
    if gates.len() == 0 {
        0
    } else {
        total_room(gates.drop_last(), capacity) + gate_room(gates.last(), capacity)
    }
}

/// The counts stay inside `i32` when a Gate's online count is taken from
/// the capacity.
pub open spec fn room_fits(gates: Seq<GateLoad>, capacity: i32) -> bool {
    forall|i: int|
        0 <= i < gates.len() && (#[trigger] gates[i]).enable && gates[i].healthy ==> i32::MIN
            <= capacity - gates[i].online_count <= i32::MAX
}

/// How many more players the enabled, healthy Gates may take together.
pub fn available_gate_capacity(gates: &Vec<GateLoad>, capacity: i32) -> (r: i64)
    requires
        room_fits(gates@, capacity),
        gates@.len() <= u32::MAX,
    ensures
        r == total_room(gates@, capacity),
{
    let mut total: i64 = 0;
    let mut i: usize = 0;
    while i < gates.len()
        invariant
            i <= gates@.len(),
            gates@.len() <= u32::MAX,
            room_fits(gates@, capacity),
            total == total_room(gates@.take(i as int), capacity),
            0 <= total <= i * (i32::MAX as int),
        decreases gates.len() - i,
    {
        let g = gates[i];
        proof {
            assert(gates@.take(i + 1).drop_last() =~= gates@.take(i as int));
            assert(gates@.take(i + 1).last() == g);
            assert(i * (i32::MAX as int) + i32::MAX as int == (i + 1) * (i32::MAX as int)) by (
            nonlinear_arith);
            assert((i + 1) * (i32::MAX as int) <= (u32::MAX as int) * (i32::MAX as int)) by (
            nonlinear_arith)
                requires
                    i + 1 <= u32::MAX,
            ;
        }
        if g.enable && g.healthy {
            let room = capacity - g.online_count;
            if room > 0 {
                total = total + room as i64;
            }
        }
        i = i + 1;
    }
    proof {
        assert(gates@.take(gates@.len() as int) =~= gates@);
    }
    total
}

/// What becomes of a role request once its place in the login queue is
/// known.
#[derive(Clone, Copy, Debug, PartialEq, Eq, Structural)]
pub enum QueueDecision {
    /// The queue is over its capacity: the player leaves it and is refused.
    Full,
    /// The Gates have no room for this place yet: the player waits.
    Wait,
    /// The player may be admitted to a Gate.
    Admit,
}

/// Decides a role request from its place in the login queue, the queue's
/// capacity and the room of the Gates.
pub fn queue_decision(position: i64, queue_capacity: i64, available: i64) -> (r: QueueDecision)
    ensures
        position > queue_capacity ==> r == QueueDecision::Full,
        position <= queue_capacity && (available == 0 || position > available) ==> r
            == QueueDecision::Wait,
        position <= queue_capacity && available != 0 && position <= available ==> r
            == QueueDecision::Admit,
{
    if position > queue_capacity {
        QueueDecision::Full
    } else if available == 0 || position > available {
        QueueDecision::Wait
    } else {
        QueueDecision::Admit
    }
}

/// The status a full login queue is answered with.
pub fn queue_full_status() -> (r: Status)
    ensures
        r.code == StatusCode::Overloaded,
        r.message@ == "login queue is full"@,
{
    Status::error(StatusCode::Overloaded, "login queue is full")
}

/// A player's place in the login queue and when to ask again.
#[derive(Clone, Copy, Debug, PartialEq, Eq, Structural)]
pub struct LoginQueue {
    pub position: i64,
    pub next_request_time: i64,
}

/// The queue answer for a waiting player: its place, and the time, in
/// seconds, after the retry delay.
pub fn waiting_in_queue(position: i64, now_secs: i64, retry_seconds: i64) -> (r: LoginQueue)
    requires
        i64::MIN <= now_secs + retry_seconds <= i64::MAX,
    ensures
        r.position == position,
        r.next_request_time == now_secs + retry_seconds,
{
    LoginQueue { position, next_request_time: now_secs + retry_seconds }
}

// ---------------------------------------------------------------------------
// Gate endpoints
// ---------------------------------------------------------------------------

/// The ASCII digits.
pub open spec fn is_digit(b: u8) -> bool {
    48 <= b <= 57
}

/// The value of a string of decimal digits.
pub open spec fn digits_value(d: Seq<u8>) -> nat
    decreases d.len(),
{
    if d.len() == 0 {
        0
    } else {
        digits_value(d.drop_last()) * 10 + (d.last() - 48) as nat
    }
}

/// The digits of a number: what follows an optional leading '+'.
pub open spec fn strip_plus(b: Seq<u8>) -> Seq<u8> {
    if b.len() > 0 && b[0] == 43 {
        b.skip(1)
    } else {
        b
    }
}

/// At least one digit and nothing else, of a value that fits in `u32`.
pub open spec fn parse_digits(d: Seq<u8>) -> Option<u32> {
    if d.len() == 0 || !(forall|i: int| 0 <= i < d.len() ==> is_digit(#[trigger] d[i])) {
        None
    } else if digits_value(d) > u32::MAX {
        None
    } else {
        Some(digits_value(d) as u32)
    }
}

/// What std's `u32` parser accepts: an optional '+', then at least one
/// decimal digit and nothing else, of a value that fits in `u32`.
pub open spec fn parse_u32(b: Seq<u8>) -> Option<u32> {
    parse_digits(strip_plus(b))
}

proof fn lemma_digits_value_grows(d: Seq<u8>, i: int)
    requires
        0 <= i <= d.len(),
        forall|k: int| 0 <= k < d.len() ==> is_digit(#[trigger] d[k]),
    ensures
        digits_value(d.take(i)) <= digits_value(d),
    decreases d.len() - i,
{
    if i < d.len() {
        lemma_digits_value_grows(d, i + 1);
        assert(d.take(i + 1).drop_last() =~= d.take(i));
    } else {
        assert(d.take(i) =~= d);
    }
}

/// Parses a port number as std's `u32` parser does.
pub fn parse_port(s: &str) -> (r: Option<u32>)
    ensures
        r == parse_u32(vstd::utf8::encode_utf8(s@)),
{
    let b = s.as_bytes();
    let ghost bytes = b@;
    let start: usize = if b.len() > 0 && b[0] == 43u8 {
        1
    } else {
        0
    };
    let ghost d = strip_plus(bytes);
    proof {
        assert(d =~= bytes.skip(start as int));
    }
    if start == b.len() {
        return None;
    }
    let mut value: u64 = 0;
    let mut i: usize = start;
    while i < b.len()
        invariant
            start <= i <= b@.len(),
            b@ == bytes,
            bytes == vstd::utf8::encode_utf8(s@),
            d == strip_plus(bytes),
            d == bytes.skip(start as int),
            forall|k: int| 0 <= k < i - start ==> is_digit(#[trigger] d[k]),
            value == digits_value(d.take(i - start)),
            value <= u32::MAX,
        decreases b.len() - i,
    {
        let c = b[i];
        proof {
            assert(d[i - start] == c);
        }
        if c < 48u8 || c > 57u8 {
            proof {
                assert(!is_digit(d[i - start]));
                assert(!(forall|k: int| 0 <= k < d.len() ==> is_digit(#[trigger] d[k])));
                assert(parse_digits(d) is None);
            }
            return None;
        }
        proof {
            assert(d.take(i - start + 1).drop_last() =~= d.take(i - start));
            assert(d.take(i - start + 1).last() == c);
        }
        value = value * 10 + (c - 48u8) as u64;
        if value > 4294967295u64 {
            proof {
                if forall|k: int| 0 <= k < d.len() ==> is_digit(#[trigger] d[k]) {
                    lemma_digits_value_grows(d, i - start + 1);
                    assert(digits_value(d) > u32::MAX);
                }
                assert(parse_digits(d) is None);
            }
            return None;
        }
        i = i + 1;
    }
    proof {
        assert(d.take(d.len() as int) =~= d);
    }
    Some(value as u32)
}

/// A Gate as Auth sees it: its host and the metadata it advertises.
#[derive(Clone, Debug)]
pub struct GateMetadata {
    pub host: String,
    pub tcp_port: Option<String>,
    pub kcp_port: Option<String>,
    pub websocket_port: Option<String>,
    pub websocket_path: Option<String>,
}

/// Where a client reaches a Gate over one transport.
#[derive(Clone, Debug)]
pub struct Endpoint {
    pub transport: String,
    pub host: String,
    pub port: u32,
    pub path: String,
}

/// The port a Gate advertises under one key, when it parses.
pub open spec fn advertised_port(port: Option<String>) -> Option<u32> {
    match port {
        Some(p) => parse_u32(vstd::utf8::encode_utf8(p@)),
        None => None,
    }
}

/// One transport's endpoint, when its port is advertised and parses.
pub open spec fn transport_endpoint(transport: Seq<char>, port: Option<String>) -> Seq<
    (Seq<char>, u32),
> {
    match advertised_port(port) {
        Some(p) => seq![(transport, p)],
        None => Seq::empty(),
    }
}

/// The transports a Gate serves, with their ports, in the order TCP, KCP,
/// WebSocket.
pub open spec fn advertised_transports(gate: GateMetadata) -> Seq<(Seq<char>, u32)> {
    transport_endpoint("tcp"@, gate.tcp_port) + transport_endpoint("kcp"@, gate.kcp_port)
        + transport_endpoint("websocket"@, gate.websocket_port)
}

/// The path of the WebSocket endpoint: the advertised one, "/" by default.
pub open spec fn websocket_path(gate: GateMetadata) -> Seq<char> {
    match gate.websocket_path {
        Some(p) => p@,
        None => "/"@,
    }
}

/// The endpoints a Gate advertises, in the order TCP, KCP, WebSocket: one
/// for each transport whose port is advertised and parses, each with the
/// Gate's host and that port; only the WebSocket one has a path.
pub open spec fn endpoints_of(eps: Seq<Endpoint>, gate: GateMetadata) -> bool {
    &&& eps.len() == advertised_transports(gate).len()
    &&& forall|i: int|
        0 <= i < eps.len() ==> {
            &&& (#[trigger] eps[i]).transport@ == advertised_transports(gate)[i].0
            &&& eps[i].host@ == gate.host@
            &&& eps[i].port == advertised_transports(gate)[i].1
            &&& eps[i].path@ == (if advertised_transports(gate)[i].0 == "websocket"@ {
                websocket_path(gate)
            } else {
                Seq::<char>::empty()
            })
        }
}

fn push_endpoint(
    out: &mut Vec<Endpoint>,
    transport: &str,
    port: &Option<String>,
    host: &String,
    path: &str,
)
    ensures
        match (match port {
            Some(p) => parse_u32(vstd::utf8::encode_utf8(p@)),
            None => None::<u32>,
        }) {
            Some(n) => {
                &&& final(out)@.len() == old(out)@.len() + 1
                &&& final(out)@.take(old(out)@.len() as int) == old(out)@
                &&& final(out)@.last().transport@ == transport@
                &&& final(out)@.last().host@ == host@
                &&& final(out)@.last().port == n
                &&& final(out)@.last().path@ == path@
            },
            None => final(out)@ == old(out)@,
        },
{
    if let Some(p) = port {
        if let Some(n) = parse_port(p.as_str()) {
            let ghost before = out@;
            out.push(
                Endpoint {
                    transport: transport.to_owned(),
                    host: host.clone(),
                    port: n,
                    path: path.to_owned(),
                },
            );
            proof {
                assert(out@.take(before.len() as int) =~= before);
            }
        }
    }
}

/// The endpoints a Gate advertises, in the order TCP, KCP, WebSocket: one
/// for each transport whose port is advertised and parses; only the
/// WebSocket one has a path.
pub fn gate_endpoints(gate: &GateMetadata) -> (r: Vec<Endpoint>)
    ensures
        endpoints_of(r@, *gate),
{
    let ws_path: String = match &gate.websocket_path {
        Some(p) => p.clone(),
        None => "/".to_owned(),
    };
    let mut out: Vec<Endpoint> = Vec::new();
    push_endpoint(&mut out, "tcp", &gate.tcp_port, &gate.host, "");
    let ghost a = out@;
    push_endpoint(&mut out, "kcp", &gate.kcp_port, &gate.host, "");
    let ghost b = out@;
    push_endpoint(&mut out, "websocket", &gate.websocket_port, &gate.host, ws_path.as_str());
    proof {
        reveal_strlit("tcp");
        reveal_strlit("kcp");
        reveal_strlit("websocket");
        reveal_strlit("");
        let t = transport_endpoint("tcp"@, gate.tcp_port);
        let k = transport_endpoint("kcp"@, gate.kcp_port);
        let w = transport_endpoint("websocket"@, gate.websocket_port);
        assert(advertised_transports(*gate) == t + k + w);
        assert(a.len() == t.len());
        assert(b.len() == t.len() + k.len());
        assert forall|i: int| 0 <= i < out@.len() implies {
            &&& (#[trigger] out@[i]).transport@ == advertised_transports(*gate)[i].0
            &&& out@[i].host@ == gate.host@
            &&& out@[i].port == advertised_transports(*gate)[i].1
            &&& out@[i].path@ == (if advertised_transports(*gate)[i].0 == "websocket"@ {
                websocket_path(*gate)
            } else {
                Seq::<char>::empty()
            })
        } by {
            if i < t.len() {
                assert(out@[i] == b.take(a.len() as int)[i]);
                assert(b[i] == a[i]);
                assert("tcp"@.len() != "websocket"@.len());
            } else if i < t.len() + k.len() {
                assert(out@[i] == b[i]);
                assert("kcp"@.len() != "websocket"@.len());
            } else {
            }
        }
    }
    out
}


// ---------------------------------------------------------------------------
// The role request, step by step
// ---------------------------------------------------------------------------

/// Where a role request stands: the outside work it waits for.
#[derive(Clone, Copy, Debug, PartialEq, Eq, Structural)]
pub enum RoleStage {
    DecodingToken,
    LoadingOnline,
    ListingGates,
    Enqueueing,
    Admitting,
    PickingGate,
    LeavingFullQueue,
    LeavingQueueAdmitted,
    Answered,
}

/// What the outside work of a role request gave back.
pub enum RoleEvent {
    /// The player id the token decodes to, if it decodes.
    TokenDecoded(Option<i64>),
    /// The token of the player's online record (`Ok(None)`: no record;
    /// `Err`: the load failed).
    OnlineLoaded(Result<Option<String>, ()>),
    /// The discovered Gates, or `None` when discovery failed.
    GatesListed(Option<Vec<GateLoad>>),
    /// The player's place in the login queue, or `None` when queueing failed.
    Enqueued(Option<i64>),
    /// What the admission limiter decided (`None`: it failed).
    AdmissionChecked(Option<bool>),
    /// The least loaded Gate, or `None` when none could be picked.
    GatePicked(Option<GateMetadata>),
    /// The player left the login queue (whether or not that succeeded).
    QueueLeft,
}

/// The answer to a role request.
#[derive(Debug)]
pub struct RoleAnswer {
    pub status: Status,
    pub gid: i64,
    pub endpoints: Vec<Endpoint>,
    pub queue: Option<LoginQueue>,
}

/// The next thing a role request needs done.
#[derive(Debug)]
pub enum RoleAction {
    DecodeToken,
    LoadOnline,
    ListGates,
    EnqueueLogin,
    CheckAdmission,
    PickGate,
    LeaveQueue,
    Answer(RoleAnswer),
}

/// A role request in progress, with the limits it is decided by.
#[derive(Debug)]
pub struct RoleFlow {
    pub gid: i64,
    pub token: String,
    pub stage: RoleStage,
    pub available: i64,
    pub position: i64,
    pub endpoints: Vec<Endpoint>,
    pub gate_player_capacity: i32,
    pub queue_capacity: i64,
    pub retry_seconds: i64,
}

/// The action answers with this code and message, and nothing else.
pub open spec fn answers_error(a: RoleAction, code: StatusCode, message: Seq<char>) -> bool {
    a matches RoleAction::Answer(x) && x.status.code == code && x.status.message@ == message
        && x.endpoints@.len() == 0 && x.queue is None
}

/// The action answers that the player waits at `position`, asking again
/// after the retry delay.
pub open spec fn answers_queue(a: RoleAction, gid: i64, position: i64, now: i64, retry: i64) -> bool {
    a matches RoleAction::Answer(x) && x.status.code == StatusCode::Success && x.gid == gid
        && x.endpoints@.len() == 0 && x.queue == Some(
        LoginQueue { position, next_request_time: (now + retry) as i64 },
    )
}

fn error_answer(code: StatusCode, message: &str) -> (r: RoleAction)
    ensures
        answers_error(r, code, message@),
{
    RoleAction::Answer(
        RoleAnswer { status: Status::error(code, message), gid: 0, endpoints: Vec::new(), queue: None },
    )
}

fn queue_answer(gid: i64, position: i64, now_secs: i64, retry_seconds: i64) -> (r: RoleAction)
    requires
        i64::MIN <= now_secs + retry_seconds <= i64::MAX,
    ensures
        answers_queue(r, gid, position, now_secs, retry_seconds),
{
    RoleAction::Answer(
        RoleAnswer {
            status: Status::ok(),
            gid,
            endpoints: Vec::new(),
            queue: Some(waiting_in_queue(position, now_secs, retry_seconds)),
        },
    )
}

impl RoleFlow {
    /// Starts a role request: a request that names no player, carries no
    /// token or a short device id is answered at once; otherwise its token
    /// is decoded first.
    pub fn begin(
        gid: i64,
        token: String,
        device_id: &str,
        gate_player_capacity: i32,
        queue_capacity: i64,
        retry_seconds: i64,
    ) -> (r: (RoleFlow, RoleAction))
        ensures
            r.0.gid == gid,
            r.0.token@ == token@,
            r.0.gate_player_capacity == gate_player_capacity,
            r.0.queue_capacity == queue_capacity,
            r.0.retry_seconds == retry_seconds,
            (gid > 0 && token@.len() > 0 && device_id.len() >= MIN_DEVICE_ID_BYTES) ==> {
                &&& r.0.stage == RoleStage::DecodingToken
                &&& r.1 is DecodeToken
            },
            !(gid > 0 && token@.len() > 0 && device_id.len() >= MIN_DEVICE_ID_BYTES) ==> {
                &&& r.0.stage == RoleStage::Answered
                &&& answers_error(r.1, StatusCode::InvalidArgument, "invalid role request"@)
            },
    {
        let rejection = role_request_rejection(gid, token.as_str(), device_id);
        let invalid = rejection.is_some();
        let flow = RoleFlow {
            gid,
            token,
            stage: if invalid {
                RoleStage::Answered
            } else {
                RoleStage::DecodingToken
            },
            available: 0,
            position: 0,
            endpoints: Vec::new(),
            gate_player_capacity,
            queue_capacity,
            retry_seconds,
        };
        if invalid {
            (flow, error_answer(StatusCode::InvalidArgument, "invalid role request"))
        } else {
            (flow, RoleAction::DecodeToken)
        }
    }

    /// Takes the result of the outside work an unanswered request waited for
    /// and answers what to do next. An event that does not answer the pending
    /// work changes nothing: the request stays where it is and the pending
    /// action is asked again.
    pub fn step(&mut self, event: RoleEvent, now_secs: i64) -> (r: RoleAction)
        requires
            old(self).stage != RoleStage::Answered,
            i64::MIN <= now_secs + old(self).retry_seconds <= i64::MAX,
            event matches RoleEvent::GatesListed(Some(g)) ==> room_fits(
                g@,
                old(self).gate_player_capacity,
            ) && g@.len() <= u32::MAX,
        ensures
            final(self).gid == old(self).gid,
            final(self).token == old(self).token,
            final(self).gate_player_capacity == old(self).gate_player_capacity,
            final(self).queue_capacity == old(self).queue_capacity,
            final(self).retry_seconds == old(self).retry_seconds,
            ({
                let s = *old(self);
                let t = *final(self);
                match (s.stage, event) {
                    (RoleStage::DecodingToken, RoleEvent::TokenDecoded(d)) => if d == Some(s.gid) {
                        t.stage == RoleStage::LoadingOnline && r is LoadOnline
                    } else {
                        t.stage == RoleStage::Answered && answers_error(
                            r,
                            StatusCode::Unauthenticated,
                            "token verification failed"@,
                        )
                    },
                    (RoleStage::LoadingOnline, RoleEvent::OnlineLoaded(o)) => match o {
                        Ok(Some(online)) if online@ == s.token@ => t.stage == RoleStage::ListingGates
                            && r is ListGates,
                        Ok(_) => t.stage == RoleStage::Answered && answers_error(
                            r,
                            StatusCode::Unauthenticated,
                            "token state mismatch"@,
                        ),
                        Err(_) => t.stage == RoleStage::Answered && answers_error(
                            r,
                            StatusCode::Internal,
                            "online state load failed"@,
                        ),
                    },
                    (RoleStage::ListingGates, RoleEvent::GatesListed(g)) => match g {
                        Some(gates) => t.stage == RoleStage::Enqueueing && r is EnqueueLogin
                            && t.available == total_room(gates@, s.gate_player_capacity),
                        None => t.stage == RoleStage::Answered && answers_error(
                            r,
                            StatusCode::TemporarilyUnavailable,
                            "Gate unavailable"@,
                        ),
                    },
                    (RoleStage::Enqueueing, RoleEvent::Enqueued(p)) => match p {
                        Some(position) => t.position == position && if position > s.queue_capacity {
                            t.stage == RoleStage::LeavingFullQueue && r is LeaveQueue
                        } else if s.available == 0 || position > s.available {
                            t.stage == RoleStage::Answered && answers_queue(
                                r,
                                s.gid,
                                position,
                                now_secs,
                                s.retry_seconds,
                            )
                        } else {
                            t.stage == RoleStage::Admitting && r is CheckAdmission
                        },
                        None => t.stage == RoleStage::Answered && answers_error(
                            r,
                            StatusCode::Internal,
                            "login queue failed"@,
                        ),
                    },
                    (RoleStage::Admitting, RoleEvent::AdmissionChecked(a)) => match a {
                        Some(true) => t.stage == RoleStage::PickingGate && r is PickGate,
                        Some(false) => t.stage == RoleStage::Answered && answers_queue(
                            r,
                            s.gid,
                            s.position,
                            now_secs,
                            s.retry_seconds,
                        ),
                        None => t.stage == RoleStage::Answered && answers_error(
                            r,
                            StatusCode::Internal,
                            "role admission failed"@,
                        ),
                    },
                    (RoleStage::PickingGate, RoleEvent::GatePicked(g)) => match g {
                        Some(gate) => if advertised_transports(gate).len() == 0 {
                            t.stage == RoleStage::Answered && answers_error(
                                r,
                                StatusCode::TemporarilyUnavailable,
                                "Gate endpoint unavailable"@,
                            )
                        } else {
                            t.stage == RoleStage::LeavingQueueAdmitted && r is LeaveQueue
                                && endpoints_of(t.endpoints@, gate)
                        },
                        None => t.stage == RoleStage::Answered && answers_error(
                            r,
                            StatusCode::TemporarilyUnavailable,
                            "Gate unavailable"@,
                        ),
                    },
                    (RoleStage::LeavingFullQueue, RoleEvent::QueueLeft) => t.stage
                        == RoleStage::Answered && answers_error(
                        r,
                        StatusCode::Overloaded,
                        "login queue is full"@,
                    ),
                    (RoleStage::LeavingQueueAdmitted, RoleEvent::QueueLeft) => t.stage
                        == RoleStage::Answered && (r matches RoleAction::Answer(x) && x.status.code
                        == StatusCode::Success && x.gid == s.gid && x.queue is None
                        && x.endpoints@ == s.endpoints@),
                    _ => t.stage == s.stage && t.position == s.position && t.available
                        == s.available && t.endpoints@ == s.endpoints@ && pending_action(r, s.stage),
                }
            }),
    {
        let stage = self.stage;
        match (stage, event) {
            (RoleStage::DecodingToken, RoleEvent::TokenDecoded(d)) => {
                if token_status(d, self.gid).is_none() {
                    self.stage = RoleStage::LoadingOnline;
                    RoleAction::LoadOnline
                } else {
                    self.stage = RoleStage::Answered;
                    error_answer(StatusCode::Unauthenticated, "token verification failed")
                }
            },
            (RoleStage::LoadingOnline, RoleEvent::OnlineLoaded(o)) => match o {
                Ok(online) => {
                    let found = match &online {
                        Some(t) => Some(t.as_str()),
                        None => None,
                    };
                    if online_token_status(found, self.token.as_str()).is_none() {
                        self.stage = RoleStage::ListingGates;
                        RoleAction::ListGates
                    } else {
                        self.stage = RoleStage::Answered;
                        error_answer(StatusCode::Unauthenticated, "token state mismatch")
                    }
                },
                Err(_) => {
                    self.stage = RoleStage::Answered;
                    error_answer(StatusCode::Internal, "online state load failed")
                },
            },
            (RoleStage::ListingGates, RoleEvent::GatesListed(g)) => match g {
                Some(gates) => {
                    self.available = available_gate_capacity(&gates, self.gate_player_capacity);
                    self.stage = RoleStage::Enqueueing;
                    RoleAction::EnqueueLogin
                },
                None => {
                    self.stage = RoleStage::Answered;
                    error_answer(StatusCode::TemporarilyUnavailable, "Gate unavailable")
                },
            },
            (RoleStage::Enqueueing, RoleEvent::Enqueued(p)) => match p {
                Some(position) => {
                    self.position = position;
                    match queue_decision(position, self.queue_capacity, self.available) {
                        QueueDecision::Full => {
                            self.stage = RoleStage::LeavingFullQueue;
                            RoleAction::LeaveQueue
                        },
                        QueueDecision::Wait => {
                            self.stage = RoleStage::Answered;
                            queue_answer(self.gid, position, now_secs, self.retry_seconds)
                        },
                        QueueDecision::Admit => {
                            self.stage = RoleStage::Admitting;
                            RoleAction::CheckAdmission
                        },
                    }
                },
                None => {
                    self.stage = RoleStage::Answered;
                    error_answer(StatusCode::Internal, "login queue failed")
                },
            },
            (RoleStage::Admitting, RoleEvent::AdmissionChecked(a)) => match admission_step(a) {
                AdmissionStep::Proceed => {
                    self.stage = RoleStage::PickingGate;
                    RoleAction::PickGate
                },
                AdmissionStep::Queue => {
                    self.stage = RoleStage::Answered;
                    queue_answer(self.gid, self.position, now_secs, self.retry_seconds)
                },
                AdmissionStep::Failed => {
                    self.stage = RoleStage::Answered;
                    error_answer(StatusCode::Internal, "role admission failed")
                },
            },
            (RoleStage::PickingGate, RoleEvent::GatePicked(g)) => match g {
                Some(gate) => {
                    let endpoints = gate_endpoints(&gate);
                    if endpoints.len() == 0 {
                        self.stage = RoleStage::Answered;
                        error_answer(StatusCode::TemporarilyUnavailable, "Gate endpoint unavailable")
                    } else {
                        self.endpoints = endpoints;
                        self.stage = RoleStage::LeavingQueueAdmitted;
                        RoleAction::LeaveQueue
                    }
                },
                None => {
                    self.stage = RoleStage::Answered;
                    error_answer(StatusCode::TemporarilyUnavailable, "Gate unavailable")
                },
            },
            (RoleStage::LeavingFullQueue, RoleEvent::QueueLeft) => {
                self.stage = RoleStage::Answered;
                RoleAction::Answer(
                    RoleAnswer {
                        status: queue_full_status(),
                        gid: 0,
                        endpoints: Vec::new(),
                        queue: None,
                    },
                )
            },
            (RoleStage::LeavingQueueAdmitted, RoleEvent::QueueLeft) => {
                self.stage = RoleStage::Answered;
                let mut endpoints = Vec::new();
                std::mem::swap(&mut endpoints, &mut self.endpoints);
                RoleAction::Answer(
                    RoleAnswer { status: Status::ok(), gid: self.gid, endpoints, queue: None },
                )
            },
            _ => self.pending(),
        }
    }

    fn pending(&self) -> (r: RoleAction)
        requires
            self.stage != RoleStage::Answered,
        ensures
            pending_action(r, self.stage),
    {
        match self.stage {
            RoleStage::DecodingToken => RoleAction::DecodeToken,
            RoleStage::LoadingOnline => RoleAction::LoadOnline,
            RoleStage::ListingGates => RoleAction::ListGates,
            RoleStage::Enqueueing => RoleAction::EnqueueLogin,
            RoleStage::Admitting => RoleAction::CheckAdmission,
            RoleStage::PickingGate => RoleAction::PickGate,
            RoleStage::LeavingFullQueue | RoleStage::LeavingQueueAdmitted | RoleStage::Answered => {
                RoleAction::LeaveQueue
            },
        }
    }
}

/// The action a request waiting at `stage` asks for.
pub open spec fn pending_action(a: RoleAction, stage: RoleStage) -> bool {
    match stage {
        RoleStage::DecodingToken => a is DecodeToken,
        RoleStage::LoadingOnline => a is LoadOnline,
        RoleStage::ListingGates => a is ListGates,
        RoleStage::Enqueueing => a is EnqueueLogin,
        RoleStage::Admitting => a is CheckAdmission,
        RoleStage::PickingGate => a is PickGate,
        RoleStage::LeavingFullQueue => a is LeaveQueue,
        RoleStage::LeavingQueueAdmitted => a is LeaveQueue,
        RoleStage::Answered => false,
    }
}


// ---------------------------------------------------------------------------
// An account login, step by step
// ---------------------------------------------------------------------------

/// Where an account login stands.
#[derive(Clone, Copy, Debug, PartialEq, Eq, Structural)]
pub enum LoginStage {
    CheckingLimits,
    Locking,
    LoadingAccount,
    AllocatingGid,
    CreatingAccount,
    Unlocking,
    EncodingToken,
    SavingToken,
    Done,
}

/// What the outside work of an account login gave back.
pub enum LoginEvent {
    /// What the global and the per-address rate limiters decided
    /// (`Some(allowed)`, or `None` when one failed).
    LimitsChecked(Option<bool>, Option<bool>),
    /// The account lock: taken (`Ok(true)`), held elsewhere (`Ok(false)`),
    /// or failed.
    Locked(Result<bool, ()>),
    /// The stored account, if any, or a failed load.
    AccountLoaded(Result<Option<AccountData>, ()>),
    /// A new player id, or `None` when allocation failed; and the time now,
    /// in seconds.
    GidAllocated(Option<i64>, i64),
    /// Whether the new account was stored.
    AccountCreated(bool),
    /// The account lock was released (whether or not that succeeded).
    Unlocked,
    /// The token for the login's role, or `None` when encoding failed.
    TokenEncoded(Option<String>),
    /// Whether the token was recorded.
    TokenSaved(bool),
}

/// The answer to an account login.
#[derive(Debug)]
pub struct LoginAnswer {
    pub status: Status,
    pub account: String,
    pub token: String,
    pub roles: Vec<Role>,
    pub created_at: i64,
}

/// The next thing an account login needs done.
#[derive(Debug)]
pub enum LoginAction {
    CheckLimits,
    Lock,
    LoadAccount,
    AllocateGid,
    /// Store this new account.
    CreateAccount(AccountData),
    Unlock,
    /// Encode a token for this player id.
    EncodeToken(i64),
    /// Record this token for this player id.
    SaveToken(i64),
    Answer(LoginAnswer),
}

/// An account login in progress.
#[derive(Debug)]
pub struct AccountLogin {
    pub account: String,
    pub credential_hash: String,
    pub stage: LoginStage,
    /// What the locked part found: the account, or the refusal.
    pub outcome: Option<Result<AccountData, Status>>,
    pub gid: i64,
    pub created_at: i64,
    pub token: String,
}

/// The action answers with this code and message and nothing else.
pub open spec fn login_refused(a: LoginAction, code: StatusCode, message: Seq<char>) -> bool {
    a matches LoginAction::Answer(x) && x.status.code == code && x.status.message@ == message
        && x.account@.len() == 0 && x.token@.len() == 0 && x.roles@.len() == 0
}

fn refuse_login(code: StatusCode, message: &str) -> (r: LoginAction)
    ensures
        login_refused(r, code, message@),
{
    refuse_login_with(Status::error(code, message))
}

fn refuse_login_with(status: Status) -> (r: LoginAction)
    ensures
        login_refused(r, status.code, status.message@),
{
    LoginAction::Answer(
        LoginAnswer {
            status,
            account: String::new(),
            token: String::new(),
            roles: Vec::new(),
            created_at: 0,
        },
    )
}

impl AccountLogin {
    /// Starts an account login: a request refused by the request rules is
    /// answered at once; otherwise the rate limiters are asked first.
    /// `credential_hash` is the hash of the presented credential.
    pub fn begin(account: &str, credential: &str, device_id: Option<&str>, credential_hash: String) -> (r: (
        AccountLogin,
        LoginAction,
    ))
        ensures
            r.0.account@ == account@,
            r.0.credential_hash == credential_hash,
            ({
                let refused = login_rejection_spec(account, credential, device_id);
                &&& refused is None ==> r.0.stage == LoginStage::CheckingLimits && r.1 is CheckLimits
                &&& refused matches Some(m) ==> r.0.stage == LoginStage::Done && login_refused(
                    r.1,
                    StatusCode::InvalidArgument,
                    m,
                )
            }),
    {
        let rejection = login_rejection(account, credential, device_id);
        let refused = rejection.is_some();
        let login = AccountLogin {
            account: account.to_owned(),
            credential_hash,
            stage: if refused {
                LoginStage::Done
            } else {
                LoginStage::CheckingLimits
            },
            outcome: None,
            gid: 0,
            created_at: 0,
            token: String::new(),
        };
        match rejection {
            Some(status) => (login, refuse_login_with(status)),
            None => (login, LoginAction::CheckLimits),
        }
    }

    /// Takes the result of the outside work an unfinished login waited for
    /// and answers what to do next. An event that does not answer the
    /// pending work changes nothing and the pending action is asked again.
    pub fn step(&mut self, event: LoginEvent) -> (r: LoginAction)
        requires
            old(self).stage != LoginStage::Done,
            old(self).stage == LoginStage::Unlocking ==> old(self).outcome is Some,
            old(self).stage == LoginStage::SavingToken ==> (old(self).outcome matches Some(Ok(_))),
        ensures
            final(self).account == old(self).account,
            final(self).credential_hash == old(self).credential_hash,
            ({
                let s = *old(self);
                let t = *final(self);
                match (s.stage, event) {
                    (LoginStage::CheckingLimits, LoginEvent::LimitsChecked(g, p)) => if g == Some(
                        true,
                    ) && p == Some(true) {
                        t.stage == LoginStage::Locking && r is Lock
                    } else if g is None || p is None {
                        t.stage == LoginStage::Done && login_refused(
                            r,
                            StatusCode::Internal,
                            "login limiter failed"@,
                        )
                    } else {
                        t.stage == LoginStage::Done && login_refused(
                            r,
                            StatusCode::RateLimited,
                            "login rate exceeded"@,
                        )
                    },
                    (LoginStage::Locking, LoginEvent::Locked(l)) => match l {
                        Ok(true) => t.stage == LoginStage::LoadingAccount && r is LoadAccount,
                        Ok(false) => t.stage == LoginStage::Done && login_refused(
                            r,
                            StatusCode::RateLimited,
                            "account login in progress"@,
                        ),
                        Err(_) => t.stage == LoginStage::Done && login_refused(
                            r,
                            StatusCode::Internal,
                            "account lock failed"@,
                        ),
                    },
                    (LoginStage::LoadingAccount, LoginEvent::AccountLoaded(a)) => match a {
                        Ok(Some(found)) => t.stage == LoginStage::Unlocking && r is Unlock && if found.credential_hash@
                            == s.credential_hash@ {
                            t.outcome == Some(Ok::<AccountData, Status>(found))
                        } else {
                            t.outcome matches Some(Err(x)) && x.code == StatusCode::Unauthenticated
                                && x.message@ == "credential mismatch"@
                        },
                        Ok(None) => t.stage == LoginStage::AllocatingGid && r is AllocateGid,
                        Err(_) => t.stage == LoginStage::Unlocking && r is Unlock && (t.outcome matches Some(
                            Err(x),
                        ) && x.code == StatusCode::Internal && x.message@ == "account load failed"@),
                    },
                    (LoginStage::AllocatingGid, LoginEvent::GidAllocated(g, now)) => match g {
                        Some(gid) => t.stage == LoginStage::CreatingAccount && (r matches LoginAction::CreateAccount(
                            a,
                        ) && fresh_account(a, s.account@, s.credential_hash, gid, now))
                            && (t.outcome matches Some(Ok(b)) && fresh_account(
                            b,
                            s.account@,
                            s.credential_hash,
                            gid,
                            now,
                        )) && t.gid == gid && t.created_at == now,
                        None => t.stage == LoginStage::Unlocking && r is Unlock && (t.outcome matches Some(
                            Err(x),
                        ) && x.code == StatusCode::Internal && x.message@ == "gid allocation failed"@),
                    },
                    (LoginStage::CreatingAccount, LoginEvent::AccountCreated(ok)) => t.stage
                        == LoginStage::Unlocking && r is Unlock && if ok {
                        t.outcome == s.outcome
                    } else {
                        t.outcome matches Some(Err(x)) && x.code == StatusCode::Internal
                            && x.message@ == "account create failed"@
                    },
                    (LoginStage::Unlocking, LoginEvent::Unlocked) => match s.outcome {
                        Some(Ok(a)) => if a.roles@.len() == 0 {
                            t.stage == LoginStage::Done && login_refused(
                                r,
                                StatusCode::Conflict,
                                "account has no role"@,
                            )
                        } else {
                            t.stage == LoginStage::EncodingToken && t.gid == a.roles@[0].gid && r
                                == LoginAction::EncodeToken(a.roles@[0].gid)
                        },
                        Some(Err(x)) => t.stage == LoginStage::Done && login_refused(
                            r,
                            x.code,
                            x.message@,
                        ),
                        None => false,
                    },
                    (LoginStage::EncodingToken, LoginEvent::TokenEncoded(tok)) => match tok {
                        Some(token) => t.stage == LoginStage::SavingToken && t.token == token && r
                            == LoginAction::SaveToken(s.gid),
                        None => t.stage == LoginStage::Done && login_refused(
                            r,
                            StatusCode::Internal,
                            "token encode failed"@,
                        ),
                    },
                    (LoginStage::SavingToken, LoginEvent::TokenSaved(ok)) => if ok {
                        t.stage == LoginStage::Done && (r matches LoginAction::Answer(x) && x.status.code
                            == StatusCode::Success && x.account@ == s.outcome->Some_0->Ok_0.account@
                            && x.token == s.token && x.roles@ == s.outcome->Some_0->Ok_0.roles@
                            && x.created_at == s.outcome->Some_0->Ok_0.created_at)
                    } else {
                        t.stage == LoginStage::Done && login_refused(
                            r,
                            StatusCode::Internal,
                            "token save failed"@,
                        )
                    },
                    _ => t == s && account_login_pending(r, s),
                }
            }),
    {
        let stage = self.stage;
        match (stage, event) {
            (LoginStage::CheckingLimits, LoginEvent::LimitsChecked(g, p)) => {
                match login_limit_status(g, p) {
                    None => {
                        self.stage = LoginStage::Locking;
                        LoginAction::Lock
                    },
                    Some(status) => {
                        self.stage = LoginStage::Done;
                        refuse_login_with(status)
                    },
                }
            },
            (LoginStage::Locking, LoginEvent::Locked(l)) => match l {
                Ok(true) => {
                    self.stage = LoginStage::LoadingAccount;
                    LoginAction::LoadAccount
                },
                Ok(false) => {
                    self.stage = LoginStage::Done;
                    refuse_login(StatusCode::RateLimited, "account login in progress")
                },
                Err(_) => {
                    self.stage = LoginStage::Done;
                    refuse_login(StatusCode::Internal, "account lock failed")
                },
            },
            (LoginStage::LoadingAccount, LoginEvent::AccountLoaded(a)) => match a {
                Ok(Some(found)) => {
                    self.outcome = match credential_status(&found.credential_hash, &self.credential_hash) {
                        None => Some(Ok(found)),
                        Some(status) => Some(Err(status)),
                    };
                    self.stage = LoginStage::Unlocking;
                    LoginAction::Unlock
                },
                Ok(None) => {
                    self.stage = LoginStage::AllocatingGid;
                    LoginAction::AllocateGid
                },
                Err(_) => {
                    self.outcome = Some(Err(Status::error(StatusCode::Internal, "account load failed")));
                    self.stage = LoginStage::Unlocking;
                    LoginAction::Unlock
                },
            },
            (LoginStage::AllocatingGid, LoginEvent::GidAllocated(g, now)) => match g {
                Some(gid) => {
                    let created = new_account(self.account.as_str(), self.credential_hash.clone(), gid, now);
                    let stored = new_account(self.account.as_str(), self.credential_hash.clone(), gid, now);
                    self.outcome = Some(Ok(stored));
                    self.gid = gid;
                    self.created_at = now;
                    self.stage = LoginStage::CreatingAccount;
                    LoginAction::CreateAccount(created)
                },
                None => {
                    self.outcome = Some(Err(Status::error(StatusCode::Internal, "gid allocation failed")));
                    self.stage = LoginStage::Unlocking;
                    LoginAction::Unlock
                },
            },
            (LoginStage::CreatingAccount, LoginEvent::AccountCreated(ok)) => {
                if !ok {
                    self.outcome = Some(Err(Status::error(StatusCode::Internal, "account create failed")));
                }
                self.stage = LoginStage::Unlocking;
                LoginAction::Unlock
            },
            (LoginStage::Unlocking, LoginEvent::Unlocked) => {
                match self.outcome.take() {
                    Some(Ok(a)) => {
                        match login_role(&a) {
                            Ok(gid) => {
                                self.gid = gid;
                                self.outcome = Some(Ok(a));
                                self.stage = LoginStage::EncodingToken;
                                LoginAction::EncodeToken(gid)
                            },
                            Err(status) => {
                                self.outcome = Some(Ok(a));
                                self.stage = LoginStage::Done;
                                refuse_login_with(status)
                            },
                        }
                    },
                    Some(Err(status)) => {
                        self.outcome = Some(Err(status.clone()));
                        self.stage = LoginStage::Done;
                        refuse_login_with(status)
                    },
                    None => LoginAction::Unlock,
                }
            },
            (LoginStage::EncodingToken, LoginEvent::TokenEncoded(tok)) => match tok {
                Some(token) => {
                    self.token = token;
                    self.stage = LoginStage::SavingToken;
                    LoginAction::SaveToken(self.gid)
                },
                None => {
                    self.stage = LoginStage::Done;
                    refuse_login(StatusCode::Internal, "token encode failed")
                },
            },
            (LoginStage::SavingToken, LoginEvent::TokenSaved(ok)) => {
                self.stage = LoginStage::Done;
                if ok {
                    match self.outcome.take() {
                        Some(Ok(a)) => LoginAction::Answer(
                            LoginAnswer {
                                status: Status::ok(),
                                account: a.account,
                                token: self.token.clone(),
                                roles: a.roles,
                                created_at: a.created_at,
                            },
                        ),
                        _ => refuse_login(StatusCode::Internal, "token save failed"),
                    }
                } else {
                    refuse_login(StatusCode::Internal, "token save failed")
                }
            },
            _ => self.pending(),
        }
    }

    fn pending(&self) -> (r: LoginAction)
        requires
            self.stage != LoginStage::Done,
        ensures
            account_login_pending(r, *self),
    {
        match self.stage {
            LoginStage::CheckingLimits => LoginAction::CheckLimits,
            LoginStage::Locking => LoginAction::Lock,
            LoginStage::LoadingAccount => LoginAction::LoadAccount,
            LoginStage::AllocatingGid => LoginAction::AllocateGid,
            LoginStage::EncodingToken => LoginAction::EncodeToken(self.gid),
            LoginStage::SavingToken => LoginAction::SaveToken(self.gid),
            LoginStage::CreatingAccount => LoginAction::CreateAccount(
                new_account(self.account.as_str(), self.credential_hash.clone(), self.gid, self.created_at),
            ),
            _ => LoginAction::Unlock,
        }
    }
}

/// The account a first login creates for `account`: one role for `gid`,
/// named after it, at level 1, created at `now`.
pub open spec fn fresh_account(a: AccountData, account: Seq<char>, hash: String, gid: i64, now: i64) -> bool {
    &&& a.account@ == account
    &&& a.credential_hash == hash
    &&& a.created_at == now
    &&& a.roles@.len() == 1
    &&& a.roles@[0].gid == gid
    &&& a.roles@[0].name@ == "Player"@ + decimal(gid as int)
    &&& a.roles@[0].level == 1
    &&& a.roles@[0].sid == 0
    &&& a.roles@[0].icon == 0
}

/// The action an account login waiting where it stands asks for.
pub open spec fn account_login_pending(a: LoginAction, login: AccountLogin) -> bool {
    match login.stage {
        LoginStage::CheckingLimits => a is CheckLimits,
        LoginStage::Locking => a is Lock,
        LoginStage::LoadingAccount => a is LoadAccount,
        LoginStage::AllocatingGid => a is AllocateGid,
        LoginStage::CreatingAccount => a matches LoginAction::CreateAccount(x) && fresh_account(
            x,
            login.account@,
            login.credential_hash,
            login.gid,
            login.created_at,
        ),
        LoginStage::Unlocking => a is Unlock,
        LoginStage::EncodingToken => a == LoginAction::EncodeToken(login.gid),
        LoginStage::SavingToken => a == LoginAction::SaveToken(login.gid),
        LoginStage::Done => false,
    }
}

/// The message a login is refused with by the request rules, if it is.
pub open spec fn login_rejection_spec(account: &str, credential: &str, device_id: Option<&str>) -> Option<Seq<char>> {
    match device_id {
        None => Some("device is required"@),
        Some(d) => if account@.len() > 0 && account.len() <= MAX_ACCOUNT_BYTES && credential@.len() > 0
            && credential.len() <= MAX_CREDENTIAL_BYTES && d.len() >= MIN_DEVICE_ID_BYTES {
            None
        } else {
            Some("invalid Auth login request"@)
        },
    }
}

} // verus!
