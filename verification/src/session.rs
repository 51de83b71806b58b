//! The state machine of one connection.
//!
//! A session starts when the socket's handshake is done, lets the client
//! authenticate once, forwards what an authenticated client asks for to the
//! coordinator, and stops when the socket closes or the client has been
//! silent for too long. The session decides; whoever owns the socket acts:
//! each step takes what has arrived and the present time, and answers with
//! the actions to perform, in order.

use crate::codec::{client_decoding, decode_client_message};
use crate::game::opt_text;
use crate::ident::new_uuid;
use crate::message::{
    ClientMessage, ClientMessageView, Connect, Disconnect, ServerMessage, ServerMessageView,
};
use crate::server::ClientMessageWrapper;
use crate::text::{blank, is_blank};
use vstd::prelude::*;

verus! {

/// Milliseconds between two heartbeats of a session.
pub const HEARTBEAT_INTERVAL_MS: u64 = 5000;

/// Milliseconds of silence after which a client counts as gone.
pub const CLIENT_TIMEOUT_MS: u64 = 10000;

/// What is sent when the handshake is done.
pub const CONNECTED: &'static str = "Connected Successfully. Authentication is required.";

/// What a client is told that asks for anything before it has
/// authenticated.
pub const AUTHENTICATION_REQUIRED: &'static str = "Authentication required.";

/// What a client is told whose text is no message.
pub const INVALID_FORMAT: &'static str = "Invalid format received. JSON required.";

/// What a client is told that sends a binary frame.
pub const BINARY_NOT_SUPPORTED: &'static str = "Binary message is not supported.";

/// What a client is told that sends a message out of place.
pub const NOT_SUPPORTED: &'static str = "This message type is not supported.";

/// Where a user stands.
#[derive(Debug, Clone, Copy, PartialEq, Eq, Structural)]
pub enum UserStatus {
    Connecting,
    Online,
    Idle,
    SearchingMatch,
    InGame,
    Spectating,
    Offline,
}

impl View for UserStatus {
    type V = UserStatus;

    open spec fn view(&self) -> UserStatus {
        *self
    }
}

/// What arrives from the socket.
#[derive(Debug, PartialEq, Eq)]
pub enum Frame {
    /// A ping of the protocol, with its payload.
    Ping(Vec<u8>),
    /// A pong of the protocol.
    Pong,
    /// A text frame.
    Text(String),
    /// A binary frame.
    Binary,
    /// The other side closes the connection.
    Close,
    /// Any other frame.
    Other,
}

/// The model of a [`Frame`].
pub enum FrameView {
    Ping(Seq<u8>),
    Pong,
    Text(Seq<char>),
    Binary,
    Close,
    Other,
}

impl View for Frame {
    type V = FrameView;

    open spec fn view(&self) -> FrameView {
        match self {
            Frame::Ping(payload) => FrameView::Ping(payload@),
            Frame::Pong => FrameView::Pong,
            Frame::Text(text) => FrameView::Text(text@),
            Frame::Binary => FrameView::Binary,
            Frame::Close => FrameView::Close,
            Frame::Other => FrameView::Other,
        }
    }
}

/// What a session asks its owner to do.
#[derive(Debug, PartialEq, Eq)]
pub enum SessionAction {
    /// Send the message to the client.
    Send(ServerMessage),
    /// Answer a ping with a pong of the same payload.
    Pong(Vec<u8>),
    /// Send a ping of the protocol.
    Ping,
    /// Call the session's heartbeat every so many milliseconds.
    ScheduleHeartbeat(u64),
    /// Announce the session to the coordinator.
    Connect(Connect),
    /// Hand a request of the client to the coordinator.
    Forward(ClientMessageWrapper),
    /// Take leave of the coordinator.
    Disconnect(Disconnect),
    /// Acknowledge the closing of the socket.
    Close,
    /// Stop the session.
    Stop,
}

/// The model of a [`SessionAction`].
pub enum SessionActionView {
    Send(ServerMessageView),
    Pong(Seq<u8>),
    Ping,
    ScheduleHeartbeat(u64),
    Connect { session_id: Seq<char>, username: Seq<char> },
    Forward { session_id: Seq<char>, message: ClientMessageView },
    Disconnect { session_id: Seq<char> },
    Close,
    Stop,
}

impl View for SessionAction {
    type V = SessionActionView;

    open spec fn view(&self) -> SessionActionView {
        match self {
            SessionAction::Send(message) => SessionActionView::Send(message@),
            SessionAction::Pong(payload) => SessionActionView::Pong(payload@),
            SessionAction::Ping => SessionActionView::Ping,
            SessionAction::ScheduleHeartbeat(every) => SessionActionView::ScheduleHeartbeat(*every),
            SessionAction::Connect(connect) => SessionActionView::Connect {
                session_id: connect.session_id@,
                username: connect.username@,
            },
            SessionAction::Forward(intent) => SessionActionView::Forward {
                session_id: intent.session_id@,
                message: intent.message@,
            },
            SessionAction::Disconnect(leave) => SessionActionView::Disconnect {
                session_id: leave.session_id@,
            },
            SessionAction::Close => SessionActionView::Close,
            SessionAction::Stop => SessionActionView::Stop,
        }
    }
}

/// The models of a sequence of actions.
pub open spec fn action_views(actions: Seq<SessionAction>) -> Seq<SessionActionView> {
    actions.map_values(|a: SessionAction| a@)
}

/// The success message with the given text.
pub open spec fn success(text: Seq<char>) -> SessionActionView {
    SessionActionView::Send(ServerMessageView::Success { message: text })
}

/// The error message with the given text.
pub open spec fn failure(text: Seq<char>) -> SessionActionView {
    SessionActionView::Send(ServerMessageView::Error { message: text })
}

/// The greeting of a user who has authenticated.
pub open spec fn greeting(username: Seq<char>) -> Seq<char> {
    "Authenticated successfully. Hello "@ + username + "!"@
}

/// A session after a step, and the actions that the step asks for.
pub struct SessionStep {
    pub session: SessionView,
    pub actions: Seq<SessionActionView>,
}

/// The model of a [`WsGameSession`].
pub struct SessionView {
    pub id: Seq<char>,
    pub last_heartbeat: u64,
    pub username: Option<Seq<char>>,
    pub status: UserStatus,
}

impl SessionView {
    /// A session that waits for its handshake, last heard of at `now`.
    pub open spec fn fresh(id: Seq<char>, now: u64) -> SessionView {
        SessionView { id, last_heartbeat: now, username: None, status: UserStatus::Connecting }
    }

    /// Whether the session has gone offline. An offline session stays
    /// offline: no step changes it, and it answers nothing.
    pub open spec fn offline(self) -> bool {
        self.status == UserStatus::Offline
    }

    /// The step that changes nothing and answers nothing.
    pub open spec fn at_rest(self) -> SessionStep {
        SessionStep { session: self, actions: seq![] }
    }

    /// The handshake is done: the session is online, greets the client and
    /// asks for its heartbeat.
    pub open spec fn started(self) -> SessionStep {
        if self.offline() {
            self.at_rest()
        } else {
            SessionStep {
                session: SessionView { status: UserStatus::Online, ..self },
                actions: seq![
                    SessionActionView::ScheduleHeartbeat(HEARTBEAT_INTERVAL_MS),
                    success(CONNECTED@),
                ],
            }
        }
    }

    /// The client has been silent for more than the timeout at `now`.
    pub open spec fn timed_out(self, now: u64) -> bool {
        now - self.last_heartbeat > CLIENT_TIMEOUT_MS
    }

    /// A heartbeat at `now`: a silent client is given up, which puts the
    /// session offline and takes leave of the coordinator; any other is
    /// pinged.
    pub open spec fn heartbeat(self, now: u64) -> SessionStep {
        if self.offline() {
            self.at_rest()
        } else if self.timed_out(now) {
            SessionStep {
                session: SessionView { status: UserStatus::Offline, ..self },
                actions: seq![
                    SessionActionView::Disconnect { session_id: self.id },
                    SessionActionView::Stop,
                ],
            }
        } else {
            SessionStep { session: self, actions: seq![SessionActionView::Ping] }
        }
    }

    /// Whether the client has authenticated.
    pub open spec fn authenticated(self) -> bool {
        self.username is Some
    }

    /// A message of the client is dealt with. The first `authenticate`
    /// with a name that is not blank makes the session known under that
    /// name; a blank name, a second `authenticate`, and any other message
    /// before the first are refused; any other message after it is
    /// forwarded to the coordinator.
    pub open spec fn dispatched(self, message: ClientMessageView) -> SessionStep {
        if self.offline() {
            self.at_rest()
        } else {
            match message {
                ClientMessageView::Authenticate { username } => if self.authenticated() {
                    SessionStep { session: self, actions: seq![failure(NOT_SUPPORTED@)] }
                } else if blank(username) {
                    SessionStep { session: self, actions: seq![failure(INVALID_FORMAT@)] }
                } else {
                    SessionStep {
                        session: SessionView {
                            username: Some(username),
                            status: UserStatus::Idle,
                            ..self
                        },
                        actions: seq![
                            success(greeting(username)),
                            SessionActionView::Connect { session_id: self.id, username },
                        ],
                    }
                },
                _ => if self.authenticated() {
                    SessionStep {
                        session: self,
                        actions: seq![SessionActionView::Forward { session_id: self.id, message }],
                    }
                } else {
                    SessionStep { session: self, actions: seq![failure(AUTHENTICATION_REQUIRED@)] }
                },
            }
        }
    }

    /// The session that has heard of its client at `now`.
    pub open spec fn refreshed(self, now: u64) -> SessionView {
        SessionView { last_heartbeat: now, ..self }
    }

    /// A frame has arrived at `now`. A frame that closes the connection is
    /// acknowledged and stops the session; the leave is taken when the
    /// session stops.
    pub open spec fn received(self, frame: FrameView, now: u64) -> SessionStep {
        if self.offline() {
            self.at_rest()
        } else {
            match frame {
                FrameView::Ping(payload) => SessionStep {
                    session: self.refreshed(now),
                    actions: seq![SessionActionView::Pong(payload)],
                },
                FrameView::Pong => SessionStep { session: self.refreshed(now), actions: seq![] },
                FrameView::Text(text) => match client_decoding(text) {
                    Some(message) => self.refreshed(now).dispatched(message),
                    None => SessionStep {
                        session: self.refreshed(now),
                        actions: seq![failure(INVALID_FORMAT@)],
                    },
                },
                FrameView::Binary => SessionStep {
                    session: self,
                    actions: seq![failure(BINARY_NOT_SUPPORTED@)],
                },
                FrameView::Close => SessionStep {
                    session: self,
                    actions: seq![SessionActionView::Close, SessionActionView::Stop],
                },
                FrameView::Other => SessionStep { session: self, actions: seq![] },
            }
        }
    }

    /// The session stops: it goes offline and takes leave of the
    /// coordinator, unless it has done so before.
    pub open spec fn stopping(self) -> SessionStep {
        if self.offline() {
            self.at_rest()
        } else {
            SessionStep {
                session: SessionView { status: UserStatus::Offline, ..self },
                actions: seq![SessionActionView::Disconnect { session_id: self.id }],
            }
        }
    }

    /// What a happening comes to.
    pub open spec fn stepped(self, happening: Happening) -> SessionStep {
        match happening {
            Happening::Started => self.started(),
            Happening::Heartbeat { now } => self.heartbeat(now),
            Happening::Received { frame, now } => self.received(frame, now),
            Happening::Stopping => self.stopping(),
        }
    }

    /// The session after a run of happenings, and all the actions that the
    /// run has asked for, in order.
    pub open spec fn after_run(self, run: Seq<Happening>) -> SessionStep
        decreases run.len(),
    {
        if run.len() == 0 {
            self.at_rest()
        } else {
            let before = self.after_run(run.drop_last());
            let step = before.session.stepped(run.last());
            SessionStep { session: step.session, actions: before.actions + step.actions }
        }
    }
}

/// What can happen to a session.
pub enum Happening {
    /// The handshake is done.
    Started,
    /// The heartbeat timer has fired at `now`.
    Heartbeat { now: u64 },
    /// A frame has arrived at `now`.
    Received { frame: FrameView, now: u64 },
    /// The session stops.
    Stopping,
}

/// How often the actions take leave of the coordinator.
pub open spec fn leaves(actions: Seq<SessionActionView>) -> nat
    decreases actions.len(),
{
    if actions.len() == 0 {
        0
    } else {
        leaves(actions.drop_last()) + if actions.last() is Disconnect {
            1nat
        } else {
            0nat
        }
    }
}

/// The leaves of two runs of actions add up.
pub proof fn lemma_leaves_add(a: Seq<SessionActionView>, b: Seq<SessionActionView>)
    ensures
        leaves(a + b) == leaves(a) + leaves(b),
    decreases b.len(),
{
    if b.len() == 0 {
        assert(a + b =~= a);
    } else {
        lemma_leaves_add(a, b.drop_last());
        assert((a + b).drop_last() =~= a + b.drop_last());
    }
}

/// A step takes leave of the coordinator exactly when it puts the session
/// offline, and then once; an offline session stays offline.
pub proof fn lemma_step_leaves(session: SessionView, happening: Happening)
    ensures
        session.offline() ==> session.stepped(happening) == session.at_rest(),
        leaves(session.stepped(happening).actions) == if !session.offline() && session.stepped(
            happening,
        ).session.offline() {
            1nat
        } else {
            0nat
        },
        happening is Stopping ==> session.stepped(happening).session.offline(),
{
    let step = session.stepped(happening);
    reveal_with_fuel(leaves, 4);
    if !session.offline() {
        match happening {
            Happening::Started => {
                assert(step.actions.drop_last().drop_last() =~= Seq::empty());
            },
            Happening::Heartbeat { now } => {
                if session.timed_out(now) {
                    assert(step.actions.drop_last().drop_last() =~= Seq::empty());
                    assert(step.actions.drop_last().last() is Disconnect);
                } else {
                    assert(step.actions.drop_last() =~= Seq::empty());
                }
            },
            Happening::Received { frame, now } => {
                assert(step.actions.len() <= 2);
                if step.actions.len() == 2 {
                    assert(step.actions.drop_last().drop_last() =~= Seq::empty());
                } else if step.actions.len() == 1 {
                    assert(step.actions.drop_last() =~= Seq::empty());
                }
            },
            Happening::Stopping => {
                assert(step.actions.drop_last() =~= Seq::empty());
            },
        }
    }
}

/// Over any run of happenings, a session that was not offline takes leave
/// of the coordinator once if the run has put it offline, and not at all
/// if it has not. A run that ends with the stopping of the session has put
/// it offline: over the whole stop there is exactly one leave.
pub proof fn lemma_one_leave(session: SessionView, run: Seq<Happening>)
    requires
        !session.offline(),
    ensures
        leaves(session.after_run(run).actions) == if session.after_run(run).session.offline() {
            1nat
        } else {
            0nat
        },
        run.len() > 0 && run.last() is Stopping ==> leaves(session.after_run(run).actions) == 1,
    decreases run.len(),
{
    if run.len() > 0 {
        lemma_one_leave(session, run.drop_last());
        let before = session.after_run(run.drop_last());
        let step = before.session.stepped(run.last());
        lemma_step_leaves(before.session, run.last());
        lemma_leaves_add(before.actions, step.actions);
    }
}

/// The session of one connection.
#[derive(Debug, PartialEq, Eq)]
pub struct WsGameSession {
    /// The id under which the coordinator knows the session.
    pub id: String,
    /// When the client was last heard of, in milliseconds.
    pub last_heartbeat: u64,
    /// The name of the user, once the client has authenticated.
    pub username: Option<String>,
    /// Where the session stands.
    pub status: UserStatus,
}

impl View for WsGameSession {
    type V = SessionView;

    open spec fn view(&self) -> SessionView {
        SessionView {
            id: self.id@,
            last_heartbeat: self.last_heartbeat,
            username: opt_text(self.username),
            status: self.status,
        }
    }
}

impl WsGameSession {
    /// A session under the given id, last heard of at `now`.
    pub fn with_id(id: String, now: u64) -> (session: Self)
        ensures
            session@ == SessionView::fresh(id@, now),
    {
        WsGameSession { id, last_heartbeat: now, username: None, status: UserStatus::Connecting }
    }

    /// A session under a freshly minted id, last heard of at `now`.
    pub fn new(now: u64) -> (session: Self)
        ensures
            session@ == SessionView::fresh(session@.id, now),
            session@.id.len() == 36,
    {
        WsGameSession::with_id(new_uuid(), now)
    }

    /// The action that tells the client of a success.
    pub fn send_success(&self, message: &str) -> (action: SessionAction)
        ensures
            action@ == success(message@),
    {
        SessionAction::Send(ServerMessage::Success { message: message.to_string() })
    }

    /// The action that tells the client of an error.
    pub fn send_error(&self, message: &str) -> (action: SessionAction)
        ensures
            action@ == failure(message@),
    {
        SessionAction::Send(ServerMessage::Error { message: message.to_string() })
    }

    /// The handshake is done.
    pub fn started(&mut self) -> (actions: Vec<SessionAction>)
        ensures
            final(self)@ == old(self)@.started().session,
            action_views(actions@) == old(self)@.started().actions,
    {
        let mut actions: Vec<SessionAction> = Vec::new();
        if self.status == UserStatus::Offline {
            assert(action_views(actions@) =~= old(self)@.started().actions);
            return actions;
        }
        self.status = UserStatus::Online;
        actions.push(SessionAction::ScheduleHeartbeat(HEARTBEAT_INTERVAL_MS));
        actions.push(self.send_success(CONNECTED));
        assert(action_views(actions@) =~= old(self)@.started().actions);
        actions
    }

    /// The heartbeat of the session at `now`: a client that has been silent
    /// for too long is given up, any other is pinged.
    pub fn heartbeat(&mut self, now: u64) -> (actions: Vec<SessionAction>)
        ensures
            final(self)@ == old(self)@.heartbeat(now).session,
            action_views(actions@) == old(self)@.heartbeat(now).actions,
    {
        let mut actions: Vec<SessionAction> = Vec::new();
        if self.status == UserStatus::Offline {
            assert(action_views(actions@) =~= old(self)@.heartbeat(now).actions);
            return actions;
        }
        if now > self.last_heartbeat && now - self.last_heartbeat > CLIENT_TIMEOUT_MS {
            self.status = UserStatus::Offline;
            actions.push(SessionAction::Disconnect(Disconnect { session_id: self.id.clone() }));
            actions.push(SessionAction::Stop);
        } else {
            actions.push(SessionAction::Ping);
        }
        assert(action_views(actions@) =~= old(self)@.heartbeat(now).actions);
        actions
    }

    /// Deals with a message of the client.
    pub fn dispatch(&mut self, message: ClientMessage) -> (actions: Vec<SessionAction>)
        ensures
            final(self)@ == old(self)@.dispatched(message@).session,
            action_views(actions@) == old(self)@.dispatched(message@).actions,
    {
        let mut actions: Vec<SessionAction> = Vec::new();
        if self.status == UserStatus::Offline {
            assert(action_views(actions@) =~= old(self)@.dispatched(message@).actions);
            return actions;
        }
        let authenticated = self.username.is_some();
        match message {
            ClientMessage::Authenticate { username } => {
                if authenticated {
                    actions.push(self.send_error(NOT_SUPPORTED));
                } else if is_blank(username.as_str()) {
                    actions.push(self.send_error(INVALID_FORMAT));
                } else {
                    let text = String::from_str("Authenticated successfully. Hello ").concat(
                        username.as_str(),
                    ).concat("!");
                    self.username = Some(username.clone());
                    self.status = UserStatus::Idle;
                    actions.push(SessionAction::Send(ServerMessage::Success { message: text }));
                    actions.push(
                        SessionAction::Connect(Connect { session_id: self.id.clone(), username }),
                    );
                }
            },
            other => {
                if authenticated {
                    actions.push(
                        SessionAction::Forward(
                            ClientMessageWrapper { session_id: self.id.clone(), message: other },
                        ),
                    );
                } else {
                    actions.push(self.send_error(AUTHENTICATION_REQUIRED));
                }
            },
        }
        assert(action_views(actions@) =~= old(self)@.dispatched(message@).actions);
        actions
    }

    /// Deals with a frame that has arrived at `now`.
    pub fn handle(&mut self, frame: Frame, now: u64) -> (actions: Vec<SessionAction>)
        ensures
            final(self)@ == old(self)@.received(frame@, now).session,
            action_views(actions@) == old(self)@.received(frame@, now).actions,
    {
        let mut actions: Vec<SessionAction> = Vec::new();
        if self.status == UserStatus::Offline {
            assert(action_views(actions@) =~= old(self)@.received(frame@, now).actions);
            return actions;
        }
        match frame {
            Frame::Ping(payload) => {
                self.last_heartbeat = now;
                actions.push(SessionAction::Pong(payload));
            },
            Frame::Pong => {
                self.last_heartbeat = now;
            },
            Frame::Text(text) => {
                self.last_heartbeat = now;
                match decode_client_message(text.as_str()) {
                    Some(message) => {
                        return self.dispatch(message);
                    },
                    None => {
                        actions.push(self.send_error(INVALID_FORMAT));
                    },
                }
            },
            Frame::Binary => {
                actions.push(self.send_error(BINARY_NOT_SUPPORTED));
            },
            Frame::Close => {
                actions.push(SessionAction::Close);
                actions.push(SessionAction::Stop);
            },
            Frame::Other => {},
        }
        assert(action_views(actions@) =~= old(self)@.received(frame@, now).actions);
        actions
    }

    /// The session stops: it goes offline and takes leave of the
    /// coordinator, unless it has done so before.
    pub fn stopping(&mut self) -> (actions: Vec<SessionAction>)
        ensures
            final(self)@ == old(self)@.stopping().session,
            action_views(actions@) == old(self)@.stopping().actions,
    {
        let mut actions: Vec<SessionAction> = Vec::new();
        if self.status == UserStatus::Offline {
            assert(action_views(actions@) =~= old(self)@.stopping().actions);
            return actions;
        }
        self.status = UserStatus::Offline;
        actions.push(SessionAction::Disconnect(Disconnect { session_id: self.id.clone() }));
        assert(action_views(actions@) =~= old(self)@.stopping().actions);
        actions
    }
}

} // verus!
