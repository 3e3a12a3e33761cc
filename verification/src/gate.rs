//! Request rules of a Gate: which login, reconnect and kick requests it
//! accepts, what refusals it answers with, which Logic it routes a login to,
//! and the login and reconnect flows, one step per piece of outside work.

use crate::auth::str_equal;
use crate::player::{clone_profile, Item, PlayerProfile};
use crate::session::{RequestError, ResumeError, Routes};
use crate::status::{Status, StatusCode};
use vstd::prelude::*;

verus! {

/// The shortest device id a client may present, in bytes.
pub const MIN_DEVICE_ID_BYTES: usize = 8;

/// A login names a player, carries a token and a device id long enough, has a
/// sequence number, and comes on a connection not yet bound to a player.
pub fn valid_login_request(bound: bool, gid: i64, token: &str, device_id: &str, seq: u32) -> (r:
    bool)
    ensures
        r == (!bound && gid > 0 && token@.len() > 0 && device_id.len() >= MIN_DEVICE_ID_BYTES
            && seq != 0),
{
    !bound && gid > 0 && !token.is_empty() && device_id.len() >= MIN_DEVICE_ID_BYTES && seq != 0
}

/// A reconnect is a valid login that also names the earlier session, and
/// whose acknowledgement agrees with the packet header's.
pub fn valid_reconnect_request(
    bound: bool,
    gid: i64,
    previous_session: i64,
    token: &str,
    device_id: &str,
    ack: u32,
    head_ack: u32,
    seq: u32,
) -> (r: bool)
    ensures
        r == (!bound && gid > 0 && previous_session > 0 && token@.len() > 0 && device_id.len()
            >= MIN_DEVICE_ID_BYTES && ack == head_ack && seq != 0),
{
    !bound && gid > 0 && previous_session > 0 && !token.is_empty() && device_id.len()
        >= MIN_DEVICE_ID_BYTES && ack == head_ack && seq != 0
}

/// A login's token stands when it decodes to the player the login names,
/// and that player's online record (`(gid, token)`, when there is one)
/// names the same player and holds the same token.
pub fn online_verified(decoded_gid: Option<i64>, gid: i64, online: Option<(i64, &str)>, token: &str)
    -> (r: bool)
    ensures
        r == (decoded_gid == Some(gid) && (online matches Some(o) && o.0 == gid && o.1@ == token@)),
{
    match decoded_gid {
        Some(d) => {
            if d != gid {
                return false;
            }
        },
        None => {
            return false;
        },
    }
    match online {
        Some((g, t)) => g == gid && str_equal(t, token),
        None => false,
    }
}

/// The status a refused reconnect is answered with: a rate refusal stays
/// one; every other reason reads as expired resume state.
pub fn resume_error_status(error: ResumeError) -> (r: Status)
    ensures
        error == ResumeError::RateLimited ==> r.code == StatusCode::RateLimited && r.message@
            == "reconnect rate exceeded"@,
        error != ResumeError::RateLimited ==> r.code == StatusCode::ResumeExpired && r.message@
            == "resume state expired"@,
{
    match error {
        ResumeError::RateLimited => Status::error(
            StatusCode::RateLimited,
            "reconnect rate exceeded",
        ),
        _ => Status::error(StatusCode::ResumeExpired, "resume state expired"),
    }
}

/// A reconnect must keep the Logic that owns the player: the refusal when
/// the owner recorded online differs from the session's route.
pub fn logic_owner_rejection(online_logic_id: i32, routes: Routes) -> (r: Option<Status>)
    ensures
        online_logic_id == routes.logic_id ==> r is None,
        online_logic_id != routes.logic_id ==> (r matches Some(s) && s.code
            == StatusCode::ResumeExpired && s.message@ == "Logic ownership changed"@),
{
    if online_logic_id != routes.logic_id {
        Some(Status::error(StatusCode::ResumeExpired, "Logic ownership changed"))
    } else {
        None
    }
}

/// The answer to a bound request the session refused: a rate refusal is
/// answered; any other refusal closes the connection (`None`).
pub fn request_error_status(error: RequestError) -> (r: Option<Status>)
    ensures
        error == RequestError::RateLimited ==> (r matches Some(s) && s.code
            == StatusCode::RateLimited && s.message@ == "request rate exceeded"@),
        error != RequestError::RateLimited ==> r is None,
{
    match error {
        RequestError::RateLimited => Some(
            Status::error(StatusCode::RateLimited, "request rate exceeded"),
        ),
        _ => None,
    }
}

/// A kick names a player and a session.
pub fn valid_kick_target(gid: i64, player_session: i64) -> (r: bool)
    ensures
        r == (gid > 0 && player_session > 0),
{
    gid > 0 && player_session > 0
}

/// What a kick did, as a Gate acts on it.
#[derive(Clone, Copy, Debug, PartialEq, Eq, Structural)]
pub struct KickOutcome {
    /// One player fewer is online.
    pub decrement_online: bool,
    /// The player's online record must drop this Gate.
    pub clear_online: bool,
    /// The answer's `kicked` flag.
    pub kicked: bool,
}

/// Acts on what the session store answered to a kick: `Some(was_active)`
/// when it held the session, `None` when it did not.
pub fn kick_outcome(result: Option<bool>) -> (r: KickOutcome)
    ensures
        r.decrement_online == (result == Some(true)),
        r.clear_online == result is Some,
        r.kicked == result is Some,
{
    KickOutcome {
        decrement_online: match result {
            Some(active) => active,
            None => false,
        },
        clear_online: result.is_some(),
        kicked: result.is_some(),
    }
}

/// How a login finds its Logic.
#[derive(Clone, Copy, Debug, PartialEq, Eq, Structural)]
pub enum LogicChoice {
    /// No Logic owns the player: take the least loaded one.
    LeastLoaded,
    /// This Logic owns the player: use it if it can serve.
    Owner(i32),
}

/// A player without an owning Logic goes to the least loaded one; a player
/// with one goes back to it.
pub fn logic_choice(online_logic_id: i32) -> (r: LogicChoice)
    ensures
        online_logic_id == 0 ==> r == LogicChoice::LeastLoaded,
        online_logic_id != 0 ==> r == LogicChoice::Owner(online_logic_id),
{
    if online_logic_id == 0 {
        LogicChoice::LeastLoaded
    } else {
        LogicChoice::Owner(online_logic_id)
    }
}

/// What a Gate knows of a Logic instance it may route to.
#[derive(Clone, Copy, Debug, PartialEq, Eq, Structural)]
pub struct LogicInstance {
    pub instance_id: i32,
    pub enable: bool,
    pub healthy: bool,
    pub connected: bool,
}

/// The owning Logic, if it is enabled, healthy and connected.
pub fn usable_owner(instance: LogicInstance) -> (r: Option<i32>)
    ensures
        r == (if instance.enable && instance.healthy && instance.connected {
            Some(instance.instance_id)
        } else {
            None::<i32>
        }),
{
    if instance.enable && instance.healthy && instance.connected {
        Some(instance.instance_id)
    } else {
        None
    }
}

/// Where a bound request is forwarded.
#[derive(Clone, Copy, Debug, PartialEq, Eq, Structural)]
pub enum RouteTarget {
    Logic,
    Public,
}

/// The server a bound request goes to: the session's Logic or Public.
pub fn target_server(routes: Routes, target: RouteTarget) -> (r: i32)
    ensures
        target == RouteTarget::Logic ==> r == routes.logic_id,
        target == RouteTarget::Public ==> r == routes.public_id,
{
    match target {
        RouteTarget::Logic => routes.logic_id,
        RouteTarget::Public => routes.public_id,
    }
}

/// The client messages a Gate knows.
#[derive(Clone, Copy, Debug, PartialEq, Eq, Structural)]
pub enum ClientMessage {
    AckNtf,
    PingReq,
    LoginReq,
    ReconnectReq,
    LogoutReq,
    PlayerInfoReq,
    UseItemReq,
    MailListReq,
    MailReadReq,
    MailDeleteReq,
    MailClaimReq,
    /// A known message that is not a client request (a response or a push).
    NotARequest,
}

/// What a Gate does with one client packet.
#[derive(Clone, Copy, Debug, PartialEq, Eq, Structural)]
pub enum PacketHandling {
    Acknowledge,
    Ping,
    Login,
    Reconnect,
    Logout,
    /// Forward the request to the session's server of that kind.
    Forward(RouteTarget),
    /// Close the connection: the packet did not decode, its message id is
    /// unknown, or it is no request.
    Close,
}

/// How a Gate handles a client packet, by its message (`None`: the packet or
/// its message id did not decode). Item requests go to Logic, mail requests
/// to Public.
pub fn packet_handling(message: Option<ClientMessage>) -> (r: PacketHandling)
    ensures
        r == (match message {
            Some(ClientMessage::AckNtf) => PacketHandling::Acknowledge,
            Some(ClientMessage::PingReq) => PacketHandling::Ping,
            Some(ClientMessage::LoginReq) => PacketHandling::Login,
            Some(ClientMessage::ReconnectReq) => PacketHandling::Reconnect,
            Some(ClientMessage::LogoutReq) => PacketHandling::Logout,
            Some(ClientMessage::PlayerInfoReq) => PacketHandling::Forward(RouteTarget::Logic),
            Some(ClientMessage::UseItemReq) => PacketHandling::Forward(RouteTarget::Logic),
            Some(ClientMessage::MailListReq) => PacketHandling::Forward(RouteTarget::Public),
            Some(ClientMessage::MailReadReq) => PacketHandling::Forward(RouteTarget::Public),
            Some(ClientMessage::MailDeleteReq) => PacketHandling::Forward(RouteTarget::Public),
            Some(ClientMessage::MailClaimReq) => PacketHandling::Forward(RouteTarget::Public),
            Some(ClientMessage::NotARequest) => PacketHandling::Close,
            None => PacketHandling::Close,
        }),
{
    match message {
        None => PacketHandling::Close,
        Some(m) => match m {
            ClientMessage::AckNtf => PacketHandling::Acknowledge,
            ClientMessage::PingReq => PacketHandling::Ping,
            ClientMessage::LoginReq => PacketHandling::Login,
            ClientMessage::ReconnectReq => PacketHandling::Reconnect,
            ClientMessage::LogoutReq => PacketHandling::Logout,
            ClientMessage::PlayerInfoReq | ClientMessage::UseItemReq => PacketHandling::Forward(
                RouteTarget::Logic,
            ),
            ClientMessage::MailListReq | ClientMessage::MailReadReq | ClientMessage::MailDeleteReq
            | ClientMessage::MailClaimReq => PacketHandling::Forward(RouteTarget::Public),
            ClientMessage::NotARequest => PacketHandling::Close,
        },
    }
}


// ---------------------------------------------------------------------------
// Logins and reconnects, step by step
// ---------------------------------------------------------------------------

/// What a Gate reads of a player's online record.
#[derive(Debug)]
pub struct OnlineRecord {
    pub gid: i64,
    pub token: String,
    pub logic_id: i32,
}

/// What a Logic answered to a login or reconnect: its status (`None` when
/// the answer carried none), and the player's profile and items.
#[derive(Debug)]
pub struct LogicReply {
    pub status: Option<Status>,
    pub player: Option<PlayerProfile>,
    pub items: Vec<Item>,
}

/// What the Logic answered: `None` when the call failed.
pub type LogicAnswer = Option<LogicReply>;

/// Where a login or reconnect stands: the outside work it waits for.
#[derive(Clone, Copy, Debug, PartialEq, Eq, Structural)]
pub enum LoginStage {
    DecodingToken,
    LoadingOnline,
    FindingLogic,
    PickingPublic,
    Authorizing,
    CallingLogic,
    Binding,
    Installing,
    SavingOnline,
    Replaying,
    Done,
}

/// What the outside work of a login or reconnect gave back.
pub enum LoginEvent {
    /// The player id the token decodes to, if it decodes.
    TokenDecoded(Option<i64>),
    /// The player's online record; `None` when there is none or the load
    /// failed.
    OnlineLoaded(Option<OnlineRecord>),
    /// The least loaded Logic, if one could be picked.
    LogicPicked(Option<i32>),
    /// The owning Logic instance, if it is known.
    LogicLookedUp(Option<LogicInstance>),
    /// The Public instance for the player, if one could be picked.
    PublicPicked(Option<i32>),
    /// The session store's answer to a reconnect's authorization.
    Authorized(Result<Routes, ResumeError>),
    /// The Logic's answer.
    LogicAnswered(LogicAnswer),
    /// Whether the connection took the player and is still open.
    Bound(bool),
    /// The session store took the login or reconnect (`false`: it refused
    /// the reconnect).
    Installed(bool),
    /// Whether the online record was saved.
    OnlineSaved(bool),
    /// Whether every replayed message was handed to the connection.
    Replayed(bool),
}

/// The next thing a login or reconnect needs done.
#[derive(Debug)]
pub enum LoginAction {
    DecodeToken,
    LoadOnline,
    PickLeastLoadedLogic,
    LookUpLogic(i32),
    PickPublic,
    /// Ask the session store to authorize the reconnect.
    Authorize,
    /// Log the player in at this Logic (`reconnect` tells which kind).
    CallLogic { logic_id: i32, reconnect: bool },
    /// Bind the player to the connection.
    Bind,
    /// Install the session in the store with these routes.
    Install(Routes),
    /// Save the online record with these ids, the login time now and no
    /// logout time.
    SaveOnline { logic_id: i32, public_id: i32 },
    /// Hand the messages the reconnect replays to the connection.
    Replay,
    /// Answer with this status and close the connection.
    Reject(Status),
    /// Close the connection without an answer.
    Close,
    /// Kick the session just installed with this status.
    KickLocal(Status),
    /// Answer that the player is in, with its routes and the profile and
    /// items the Logic returned.
    Respond { routes: Routes, player: Option<PlayerProfile>, items: Vec<Item> },
}

/// A login or reconnect in progress.
#[derive(Debug)]
pub struct GateLogin {
    pub gid: i64,
    pub token: String,
    pub reconnect: bool,
    pub stage: LoginStage,
    pub online_logic_id: i32,
    pub routes: Routes,
    pub player: Option<PlayerProfile>,
    pub items: Vec<Item>,
}

/// The action answers that the player is in, with what the login kept.
pub open spec fn responds(a: LoginAction, login: GateLogin) -> bool {
    a matches LoginAction::Respond { routes, player, items } && routes == login.routes && player
        == login.player && items@ == login.items@
}

fn copy_items(v: &Vec<Item>) -> (r: Vec<Item>)
    ensures
        r@ == v@,
{
    let mut out: Vec<Item> = Vec::new();
    let mut i: usize = 0;
    while i < v.len()
        invariant
            i <= v.len(),
            out@ == v@.take(i as int),
        decreases v.len() - i,
    {
        out.push(v[i]);
        proof {
            assert(v@.take(i + 1) =~= v@.take(i as int).push(v@[i as int]));
        }
        i = i + 1;
    }
    proof {
        assert(v@.take(v@.len() as int) =~= v@);
    }
    out
}

/// The action rejects with this code and message.
pub open spec fn rejects(a: LoginAction, code: StatusCode, message: Seq<char>) -> bool {
    a matches LoginAction::Reject(s) && s.code == code && s.message@ == message
}

/// The action a login waiting at `stage` asks for.
pub open spec fn login_pending(a: LoginAction, stage: LoginStage, routes: Routes, online_logic_id: i32, reconnect: bool) -> bool {
    match stage {
        LoginStage::DecodingToken => a is DecodeToken,
        LoginStage::LoadingOnline => a is LoadOnline,
        LoginStage::FindingLogic => if online_logic_id == 0 {
            a is PickLeastLoadedLogic
        } else {
            a == LoginAction::LookUpLogic(online_logic_id)
        },
        LoginStage::PickingPublic => a is PickPublic,
        LoginStage::Authorizing => a is Authorize,
        LoginStage::CallingLogic => a == LoginAction::CallLogic { logic_id: routes.logic_id, reconnect },
        LoginStage::Binding => a is Bind,
        LoginStage::Installing => a == LoginAction::Install(routes),
        LoginStage::SavingOnline => a == LoginAction::SaveOnline {
            logic_id: routes.logic_id,
            public_id: routes.public_id,
        },
        LoginStage::Replaying => a is Replay,
        LoginStage::Done => false,
    }
}

fn reject(code: StatusCode, message: &str) -> (r: LoginAction)
    ensures
        rejects(r, code, message@),
{
    LoginAction::Reject(Status::error(code, message))
}

impl GateLogin {
    /// Starts a login (`reconnect` false) or a reconnect on a connection.
    /// A request that breaks the request rules is rejected at once;
    /// otherwise its token is decoded first.
    pub fn begin(reconnect: bool, request_valid: bool, gid: i64, token: String) -> (r: (
        GateLogin,
        LoginAction,
    ))
        ensures
            r.0.gid == gid,
            r.0.token@ == token@,
            r.0.reconnect == reconnect,
            request_valid ==> r.0.stage == LoginStage::DecodingToken && r.1 is DecodeToken,
            !request_valid ==> r.0.stage == LoginStage::Done && (if reconnect {
                rejects(r.1, StatusCode::InvalidArgument, "invalid reconnect request"@)
            } else {
                rejects(r.1, StatusCode::InvalidArgument, "invalid login request"@)
            }),
    {
        let login = GateLogin {
            gid,
            token,
            reconnect,
            stage: if request_valid {
                LoginStage::DecodingToken
            } else {
                LoginStage::Done
            },
            online_logic_id: 0,
            routes: Routes { logic_id: 0, public_id: 0 },
            player: None,
            items: Vec::new(),
        };
        if request_valid {
            (login, LoginAction::DecodeToken)
        } else if reconnect {
            (login, reject(StatusCode::InvalidArgument, "invalid reconnect request"))
        } else {
            (login, reject(StatusCode::InvalidArgument, "invalid login request"))
        }
    }

    fn pending(&self) -> (r: LoginAction)
        requires
            self.stage != LoginStage::Done,
        ensures
            login_pending(r, self.stage, self.routes, self.online_logic_id, self.reconnect),
    {
        match self.stage {
            LoginStage::DecodingToken => LoginAction::DecodeToken,
            LoginStage::LoadingOnline => LoginAction::LoadOnline,
            LoginStage::FindingLogic => match logic_choice(self.online_logic_id) {
                LogicChoice::LeastLoaded => LoginAction::PickLeastLoadedLogic,
                LogicChoice::Owner(id) => LoginAction::LookUpLogic(id),
            },
            LoginStage::PickingPublic => LoginAction::PickPublic,
            LoginStage::Authorizing => LoginAction::Authorize,
            LoginStage::CallingLogic => LoginAction::CallLogic {
                logic_id: self.routes.logic_id,
                reconnect: self.reconnect,
            },
            LoginStage::Binding => LoginAction::Bind,
            LoginStage::Installing => LoginAction::Install(self.routes),
            LoginStage::SavingOnline => LoginAction::SaveOnline {
                logic_id: self.routes.logic_id,
                public_id: self.routes.public_id,
            },
            LoginStage::Replaying | LoginStage::Done => LoginAction::Replay,
        }
    }

    /// The answer that the player is in.
    fn respond(&self) -> (r: LoginAction)
        ensures
            responds(r, *self),
    {
        LoginAction::Respond {
            routes: self.routes,
            player: clone_profile(&self.player),
            items: copy_items(&self.items),
        }
    }

    /// Moves on to the next stage and asks for its work.
    fn advance(&mut self, stage: LoginStage) -> (r: LoginAction)
        requires
            stage != LoginStage::Done,
        ensures
            final(self).stage == stage,
            final(self).routes == old(self).routes,
            final(self).online_logic_id == old(self).online_logic_id,
            final(self).gid == old(self).gid,
            final(self).token == old(self).token,
            final(self).reconnect == old(self).reconnect,
            final(self).player == old(self).player,
            final(self).items == old(self).items,
            login_pending(r, stage, old(self).routes, old(self).online_logic_id, old(self).reconnect),
    {
        self.stage = stage;
        self.pending()
    }

    /// Takes the result of the outside work an unfinished login or reconnect
    /// waited for and answers what to do next. An event that does not answer
    /// the pending work changes nothing and the pending action is asked
    /// again.
    pub fn step(&mut self, event: LoginEvent) -> (r: LoginAction)
        requires
            old(self).stage != LoginStage::Done,
        ensures
            final(self).gid == old(self).gid,
            final(self).token == old(self).token,
            final(self).reconnect == old(self).reconnect,
            !(old(self).stage == LoginStage::CallingLogic && event is LogicAnswered) ==> final(self).player
                == old(self).player && final(self).items@ == old(self).items@,
            ({
                let s = *old(self);
                let t = *final(self);
                match (s.stage, event) {
                    (LoginStage::DecodingToken, LoginEvent::TokenDecoded(d)) => if d == Some(s.gid) {
                        t.stage == LoginStage::LoadingOnline && r is LoadOnline
                    } else {
                        t.stage == LoginStage::Done && rejects(
                            r,
                            StatusCode::Unauthenticated,
                            "token verification failed"@,
                        )
                    },
                    (LoginStage::LoadingOnline, LoginEvent::OnlineLoaded(o)) => match o {
                        Some(rec) if rec.gid == s.gid && rec.token@ == s.token@ => {
                            &&& t.online_logic_id == rec.logic_id
                            &&& if s.reconnect {
                                t.stage == LoginStage::Authorizing && r is Authorize
                            } else {
                                t.stage == LoginStage::FindingLogic && login_pending(
                                    r,
                                    LoginStage::FindingLogic,
                                    s.routes,
                                    rec.logic_id,
                                    s.reconnect,
                                )
                            }
                        },
                        _ => t.stage == LoginStage::Done && rejects(
                            r,
                            StatusCode::Unauthenticated,
                            "token verification failed"@,
                        ),
                    },
                    (LoginStage::FindingLogic, LoginEvent::LogicPicked(p)) if s.online_logic_id
                        == 0 => match p {
                        Some(id) => t.routes.logic_id == id && t.stage == LoginStage::PickingPublic
                            && r is PickPublic,
                        None => t.stage == LoginStage::Done && rejects(
                            r,
                            StatusCode::TemporarilyUnavailable,
                            "Logic unavailable"@,
                        ),
                    },
                    (LoginStage::FindingLogic, LoginEvent::LogicLookedUp(i)) if s.online_logic_id
                        != 0 => match i {
                        Some(instance) if usable_spec(instance) => t.routes.logic_id
                            == instance.instance_id && t.stage == LoginStage::PickingPublic
                            && r is PickPublic,
                        _ => t.stage == LoginStage::Done && rejects(
                            r,
                            StatusCode::TemporarilyUnavailable,
                            "Logic unavailable"@,
                        ),
                    },
                    (LoginStage::PickingPublic, LoginEvent::PublicPicked(p)) => match p {
                        Some(id) => t.routes == (Routes { public_id: id, ..s.routes }) && t.stage
                            == LoginStage::CallingLogic && r == LoginAction::CallLogic {
                            logic_id: s.routes.logic_id,
                            reconnect: s.reconnect,
                        },
                        None => t.stage == LoginStage::Done && rejects(
                            r,
                            StatusCode::TemporarilyUnavailable,
                            "Public unavailable"@,
                        ),
                    },
                    (LoginStage::Authorizing, LoginEvent::Authorized(a)) => match a {
                        Ok(routes) => if s.online_logic_id != routes.logic_id {
                            t.stage == LoginStage::Done && rejects(
                                r,
                                StatusCode::ResumeExpired,
                                "Logic ownership changed"@,
                            )
                        } else {
                            t.routes == routes && t.stage == LoginStage::CallingLogic && r
                                == LoginAction::CallLogic {
                                logic_id: routes.logic_id,
                                reconnect: s.reconnect,
                            }
                        },
                        Err(e) => t.stage == LoginStage::Done && (if e == ResumeError::RateLimited {
                            rejects(r, StatusCode::RateLimited, "reconnect rate exceeded"@)
                        } else {
                            rejects(r, StatusCode::ResumeExpired, "resume state expired"@)
                        }),
                    },
                    (LoginStage::CallingLogic, LoginEvent::LogicAnswered(a)) => match a {
                        Some(LogicReply { status: Some(status), player, items }) => if status.code
                            == StatusCode::Success {
                            t.stage == LoginStage::Binding && r is Bind && t.player == player
                                && t.items@ == items@
                        } else {
                            t.stage == LoginStage::Done && (r matches LoginAction::Reject(x)
                                && x.code == status.code && x.message@ == status.message@)
                        },
                        Some(LogicReply { status: None, .. }) => t.stage == LoginStage::Done && (if s.reconnect {
                            rejects(r, StatusCode::Internal, "Logic reconnect response has no status"@)
                        } else {
                            rejects(r, StatusCode::Internal, "Logic login response has no status"@)
                        }),
                        None => t.stage == LoginStage::Done && (if s.reconnect {
                            rejects(r, StatusCode::TemporarilyUnavailable, "Logic reconnect failed"@)
                        } else {
                            rejects(r, StatusCode::TemporarilyUnavailable, "Logic login failed"@)
                        }),
                    },
                    (LoginStage::Binding, LoginEvent::Bound(b)) => if b {
                        t.stage == LoginStage::Installing && r == LoginAction::Install(s.routes)
                    } else {
                        t.stage == LoginStage::Done && r is Close
                    },
                    (LoginStage::Installing, LoginEvent::Installed(ok)) => if ok {
                        t.stage == LoginStage::SavingOnline && r == LoginAction::SaveOnline {
                            logic_id: s.routes.logic_id,
                            public_id: s.routes.public_id,
                        }
                    } else {
                        t.stage == LoginStage::Done && r is Close
                    },
                    (LoginStage::SavingOnline, LoginEvent::OnlineSaved(ok)) => if !ok {
                        t.stage == LoginStage::Done && (r matches LoginAction::KickLocal(x) && x.code
                            == StatusCode::Internal && x.message@ == "online save failed"@)
                    } else if s.reconnect {
                        t.stage == LoginStage::Replaying && r is Replay
                    } else {
                        t.stage == LoginStage::Done && responds(r, s)
                    },
                    (LoginStage::Replaying, LoginEvent::Replayed(ok)) => t.stage == LoginStage::Done
                        && if ok {
                        responds(r, s)
                    } else {
                        (r matches LoginAction::KickLocal(x) && x.code == StatusCode::Overloaded
                            && x.message@ == "replay queue full"@)
                    },
                    _ => t.stage == s.stage && t.routes == s.routes && t.online_logic_id
                        == s.online_logic_id && login_pending(
                        r,
                        s.stage,
                        s.routes,
                        s.online_logic_id,
                        s.reconnect,
                    ),
                }
            }),
    {
        let stage = self.stage;
        match (stage, event) {
            (LoginStage::DecodingToken, LoginEvent::TokenDecoded(d)) => {
                let decoded_ok = match d {
                    Some(g) => g == self.gid,
                    None => false,
                };
                if decoded_ok {
                    self.advance(LoginStage::LoadingOnline)
                } else {
                    self.stage = LoginStage::Done;
                    reject(StatusCode::Unauthenticated, "token verification failed")
                }
            },
            (LoginStage::LoadingOnline, LoginEvent::OnlineLoaded(o)) => {
                let verified = match &o {
                    Some(rec) => online_verified(
                        Some(self.gid),
                        self.gid,
                        Some((rec.gid, rec.token.as_str())),
                        self.token.as_str(),
                    ),
                    None => false,
                };
                match o {
                    Some(rec) if verified => {
                        self.online_logic_id = rec.logic_id;
                        if self.reconnect {
                            self.advance(LoginStage::Authorizing)
                        } else {
                            self.advance(LoginStage::FindingLogic)
                        }
                    },
                    _ => {
                        self.stage = LoginStage::Done;
                        reject(StatusCode::Unauthenticated, "token verification failed")
                    },
                }
            },
            (LoginStage::FindingLogic, LoginEvent::LogicPicked(p)) if self.online_logic_id == 0 => {
                match p {
                    Some(id) => {
                        self.routes = Routes { logic_id: id, ..self.routes };
                        self.advance(LoginStage::PickingPublic)
                    },
                    None => {
                        self.stage = LoginStage::Done;
                        reject(StatusCode::TemporarilyUnavailable, "Logic unavailable")
                    },
                }
            },
            (LoginStage::FindingLogic, LoginEvent::LogicLookedUp(i)) if self.online_logic_id != 0 => {
                let usable = match i {
                    Some(instance) => usable_owner(instance),
                    None => None,
                };
                match usable {
                    Some(id) => {
                        self.routes = Routes { logic_id: id, ..self.routes };
                        self.advance(LoginStage::PickingPublic)
                    },
                    None => {
                        self.stage = LoginStage::Done;
                        reject(StatusCode::TemporarilyUnavailable, "Logic unavailable")
                    },
                }
            },
            (LoginStage::PickingPublic, LoginEvent::PublicPicked(p)) => match p {
                Some(id) => {
                    self.routes = Routes { public_id: id, ..self.routes };
                    self.advance(LoginStage::CallingLogic)
                },
                None => {
                    self.stage = LoginStage::Done;
                    reject(StatusCode::TemporarilyUnavailable, "Public unavailable")
                },
            },
            (LoginStage::Authorizing, LoginEvent::Authorized(a)) => match a {
                Ok(routes) => match logic_owner_rejection(self.online_logic_id, routes) {
                    Some(status) => {
                        self.stage = LoginStage::Done;
                        LoginAction::Reject(status)
                    },
                    None => {
                        self.routes = routes;
                        self.advance(LoginStage::CallingLogic)
                    },
                },
                Err(e) => {
                    self.stage = LoginStage::Done;
                    LoginAction::Reject(resume_error_status(e))
                },
            },
            (LoginStage::CallingLogic, LoginEvent::LogicAnswered(a)) => match a {
                Some(LogicReply { status: Some(status), player, items }) => {
                    if status.is_ok() {
                        self.player = player;
                        self.items = items;
                        self.advance(LoginStage::Binding)
                    } else {
                        self.stage = LoginStage::Done;
                        LoginAction::Reject(status)
                    }
                },
                Some(LogicReply { status: None, .. }) => {
                    self.stage = LoginStage::Done;
                    if self.reconnect {
                        reject(StatusCode::Internal, "Logic reconnect response has no status")
                    } else {
                        reject(StatusCode::Internal, "Logic login response has no status")
                    }
                },
                None => {
                    self.stage = LoginStage::Done;
                    if self.reconnect {
                        reject(StatusCode::TemporarilyUnavailable, "Logic reconnect failed")
                    } else {
                        reject(StatusCode::TemporarilyUnavailable, "Logic login failed")
                    }
                },
            },
            (LoginStage::Binding, LoginEvent::Bound(b)) => {
                if b {
                    self.advance(LoginStage::Installing)
                } else {
                    self.stage = LoginStage::Done;
                    LoginAction::Close
                }
            },
            (LoginStage::Installing, LoginEvent::Installed(ok)) => {
                if ok {
                    self.advance(LoginStage::SavingOnline)
                } else {
                    self.stage = LoginStage::Done;
                    LoginAction::Close
                }
            },
            (LoginStage::SavingOnline, LoginEvent::OnlineSaved(ok)) => {
                if !ok {
                    self.stage = LoginStage::Done;
                    LoginAction::KickLocal(Status::error(StatusCode::Internal, "online save failed"))
                } else if self.reconnect {
                    self.advance(LoginStage::Replaying)
                } else {
                    self.stage = LoginStage::Done;
                    self.respond()
                }
            },
            (LoginStage::Replaying, LoginEvent::Replayed(ok)) => {
                self.stage = LoginStage::Done;
                if ok {
                    self.respond()
                } else {
                    LoginAction::KickLocal(Status::error(StatusCode::Overloaded, "replay queue full"))
                }
            },
            _ => self.pending(),
        }
    }
}

/// The owning Logic may serve the player.
pub open spec fn usable_spec(instance: LogicInstance) -> bool {
    instance.enable && instance.healthy && instance.connected
}

} // verus!
