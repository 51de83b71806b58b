//! The game coordinator: the one authority over who is connected, who
//! waits for an opponent and which games are running.
//!
//! The coordinator deals with one event at a time: a session announces
//! itself or takes leave, a client asks for something, or the matchmaking
//! timer ticks. It never touches a socket. Each event changes the
//! coordinator's tables and answers with the messages to deliver, each
//! addressed to a session, in the order in which they are to be sent.
//!
//! The model of the coordinator is [`ServerView`]; each event is a function
//! on that model which gives the tables afterwards and the messages sent.

use crate::board::{well_formed, DiskColor};
use crate::codec::{encode_server_message, server_tree};
use crate::json::json_text;
use crate::game::{Game, GameState, GameStateView, GameView};
use crate::matchmaking::{
    match_views, MatchmakingService, MatchmakingView, PendingMatch, PendingMatchView,
};
use crate::message::{
    clone_board, frame_text, ClientMessage, ClientMessageView, Connect, Disconnect, SendMessage,
    ServerMessage, ServerMessageView,
};
use crate::registry::{Registry, RegistryView};
use crate::sequences::lemma_filter_step;
use crate::session::UserStatus;
use crate::text::str_eq;
use vstd::prelude::*;

verus! {

/// Milliseconds after which a pending match is given up.
pub const MATCH_TIMEOUT_MS: u64 = 30000;

/// Milliseconds between two ticks of the matchmaking timer.
pub const MATCHMAKING_INTERVAL_MS: u64 = 1000;

/// The rating under which every player is queued.
pub const DEFAULT_RATING: u32 = 1000;

/// What a session is told when its user has logged in elsewhere.
pub const LOGGED_IN_ELSEWHERE: &'static str =
    "Your account has been logged in from another device or location.\n                            If this wasn't you, please secure your account immediately.";

/// What a player is told who has joined the queue.
pub const JOINED_QUEUE: &'static str = "Joined matchmaking queue. Searching for opponent...";

/// What a player is told who has left the queue.
pub const LEFT_QUEUE: &'static str = "Left matchmaking queue";

/// Why a player who waits cannot join the queue.
pub const ALREADY_IN_QUEUE: &'static str = "Already in matchmaking queue";

/// Why a session that plays a game cannot join the queue.
pub const ALREADY_IN_GAME: &'static str = "Already in a game";

/// Why a session that is not connected cannot join the queue.
pub const SESSION_NOT_FOUND: &'static str = "User session not found";

/// Why a player who does not wait cannot leave the queue.
pub const NOT_IN_QUEUE: &'static str = "Not in matchmaking queue";

/// Why a session without a game cannot move or resign.
pub const NOT_IN_GAME: &'static str = "You are not in a game";

/// Why a session whose game is gone cannot move or resign.
pub const GAME_NOT_FOUND: &'static str = "Game not found";

/// The reason of a game that has ended by play or by resignation.
pub const GAME_COMPLETED: &'static str = "Game completed";

/// The reason of a game that has ended because a player has gone.
pub const OPPONENT_DISCONNECTED: &'static str = "Opponent disconnected";

/// What the players of a match are told that was given up.
pub const MATCH_TIMED_OUT: &'static str = "Match timed out. Please join the queue again.";

/// A request of a client on its way to the coordinator.
#[derive(Debug, PartialEq, Eq)]
pub struct ClientMessageWrapper {
    pub session_id: String,
    pub message: ClientMessage,
}

/// A message on its way to a session.
#[derive(Debug, PartialEq, Eq)]
pub struct Outbound {
    pub session_id: String,
    pub message: ServerMessage,
}

/// The model of an [`Outbound`].
pub struct OutboundView {
    pub session_id: Seq<char>,
    pub message: ServerMessageView,
}

impl View for Outbound {
    type V = OutboundView;

    open spec fn view(&self) -> OutboundView {
        OutboundView { session_id: self.session_id@, message: self.message@ }
    }
}

impl Outbound {
    /// The message as it is put into the mailbox of its session: written
    /// as JSON text. Nothing comes back where the text cannot be written.
    pub fn to_send_message(&self) -> (frame: Option<SendMessage>)
        ensures
            frame_text(frame) == json_text(server_tree(self.message@)),
    {
        match encode_server_message(&self.message) {
            Some(text) => Some(SendMessage { message: text }),
            None => None,
        }
    }
}

/// What the coordinator deals with.
#[derive(Debug, PartialEq, Eq)]
pub enum ServerEvent {
    /// A session announces itself.
    Connect(Connect),
    /// A session takes leave.
    Disconnect(Disconnect),
    /// A client asks for something.
    ClientMessage(ClientMessageWrapper),
    /// The matchmaking timer ticks.
    RunMatchmaking,
}

/// The model of a [`ServerEvent`].
pub enum ServerEventView {
    Connect { session_id: Seq<char>, username: Seq<char> },
    Disconnect { session_id: Seq<char> },
    ClientMessage { session_id: Seq<char>, message: ClientMessageView },
    RunMatchmaking,
}

impl View for ServerEvent {
    type V = ServerEventView;

    open spec fn view(&self) -> ServerEventView {
        match self {
            ServerEvent::Connect(msg) => ServerEventView::Connect {
                session_id: msg.session_id@,
                username: msg.username@,
            },
            ServerEvent::Disconnect(msg) => ServerEventView::Disconnect {
                session_id: msg.session_id@,
            },
            ServerEvent::ClientMessage(msg) => ServerEventView::ClientMessage {
                session_id: msg.session_id@,
                message: msg.message@,
            },
            ServerEvent::RunMatchmaking => ServerEventView::RunMatchmaking,
        }
    }
}

/// The models of a sequence of messages on their way.
pub open spec fn outbound_views(sent: Seq<Outbound>) -> Seq<OutboundView> {
    sent.map_values(|o: Outbound| o@)
}

/// The text that tells of a user who has logged in.
pub open spec fn logged_in_text(username: Seq<char>) -> Seq<char> {
    "User "@ + username + " has logged in"@
}

/// The text that tells of a user who has logged out.
pub open spec fn logged_out_text(username: Seq<char>) -> Seq<char> {
    "User "@ + username + " has logged out"@
}

/// The success message with the given text.
pub open spec fn success_message(text: Seq<char>) -> ServerMessageView {
    ServerMessageView::Success { message: text }
}

/// The error message with the given text.
pub open spec fn error_message(text: Seq<char>) -> ServerMessageView {
    ServerMessageView::Error { message: text }
}

/// The snapshot of a game as the player of `color` is sent it.
pub open spec fn state_message(state: GameStateView, color: DiskColor) -> ServerMessageView {
    ServerMessageView::GameState {
        board: state.board,
        current_player: state.current_player,
        your_color: color.name(),
    }
}

/// Whether a session is another one than the one to skip.
pub open spec fn not_skipped(skip: Option<Seq<char>>) -> spec_fn(Seq<char>) -> bool {
    |s: Seq<char>| skip != Some(s)
}

/// The message as it is addressed to a session.
pub open spec fn addressed(message: ServerMessageView) -> spec_fn(Seq<char>) -> OutboundView {
    |s: Seq<char>| OutboundView { session_id: s, message }
}

/// The coordinator after an event, and the messages that the event sends.
pub struct ServerStep {
    pub server: ServerView,
    pub sent: Seq<OutboundView>,
}

/// What a request of a client comes to: the coordinator afterwards, the
/// messages sent, and the reason for which the request was refused, if it
/// was.
pub struct ServerAttempt {
    pub server: ServerView,
    pub sent: Seq<OutboundView>,
    pub refused: Option<Seq<char>>,
}

/// The model of a [`GameServer`].
pub struct ServerView {
    /// The name of the user of each connected session.
    pub sessions: RegistryView<Seq<char>>,
    /// The session of each user.
    pub users: RegistryView<Seq<char>>,
    /// Where each session stands.
    pub user_statuses: RegistryView<UserStatus>,
    /// The queue and the pending matches.
    pub matchmaking: MatchmakingView,
    /// The running games by their id.
    pub active_games: RegistryView<GameView>,
    /// The game of each session that plays.
    pub user_games: RegistryView<Seq<char>>,
}

impl ServerView {
    /// The tables are well formed, and so is the board of every game.
    pub open spec fn wf(self) -> bool {
        &&& self.sessions.wf()
        &&& self.users.wf()
        &&& self.user_statuses.wf()
        &&& self.matchmaking.wf()
        &&& self.active_games.wf()
        &&& self.user_games.wf()
        &&& forall|g: Seq<char>|
            self.active_games.map.contains_key(g) ==> well_formed(
                (#[trigger] self.active_games.map[g]).board,
            )
    }

    /// A coordinator that knows nobody.
    pub open spec fn empty() -> ServerView {
        ServerView {
            sessions: RegistryView::empty(),
            users: RegistryView::empty(),
            user_statuses: RegistryView::empty(),
            matchmaking: MatchmakingView::empty(),
            active_games: RegistryView::empty(),
            user_games: RegistryView::empty(),
        }
    }

    /// Every session that is listed with a game is a player of that game,
    /// and the game is running.
    pub open spec fn games_indexed(self) -> bool {
        forall|s: Seq<char>| #[trigger]
            self.user_games.map.contains_key(s) ==> self.active_games.map.contains_key(
                self.user_games.map[s],
            ) && self.active_games.map[self.user_games.map[s]].has_player(s)
    }

    /// A user is listed with a session exactly when that session is
    /// connected under the user's name.
    pub open spec fn users_indexed(self) -> bool {
        &&& forall|u: Seq<char>| #[trigger]
            self.users.map.contains_key(u) ==> self.sessions.map.contains_key(self.users.map[u])
                && self.sessions.map[self.users.map[u]] == u
        &&& forall|s: Seq<char>| #[trigger]
            self.sessions.map.contains_key(s) ==> self.users.map.contains_key(
                self.sessions.map[s],
            ) && self.users.map[self.sessions.map[s]] == s
    }

    /// No session both waits in the queue and plays a game.
    pub open spec fn queue_apart(self) -> bool {
        forall|s: Seq<char>|
            !(#[trigger] self.matchmaking.queue.map.contains_key(s)
                && self.user_games.map.contains_key(s))
    }

    /// The two players of every game are different sessions.
    pub open spec fn players_apart(self) -> bool {
        forall|g: Seq<char>| #[trigger]
            self.active_games.map.contains_key(g) ==> self.active_games.map[g].black_player_id
                != self.active_games.map[g].white_player_id
    }

    /// No match is pending: every match that was made has become a game,
    /// so there is none to give up.
    pub open spec fn none_pending(self) -> bool {
        forall|k: Seq<char>| !#[trigger] self.matchmaking.pending.map.contains_key(k)
    }

    /// The tables of the coordinator agree with one another.
    pub open spec fn indexed(self) -> bool {
        &&& self.games_indexed()
        &&& self.users_indexed()
        &&& self.queue_apart()
        &&& self.players_apart()
    }

    /// The invariants of the coordinator together.
    pub open spec fn inv(self) -> bool {
        &&& self.indexed()
        &&& self.none_pending()
    }

    /// The message for `session`, if it is connected; a message for a
    /// session that is not connected is dropped.
    pub open spec fn to_session(self, session: Seq<char>, message: ServerMessageView) -> Seq<
        OutboundView,
    > {
        if self.sessions.map.contains_key(session) {
            seq![OutboundView { session_id: session, message }]
        } else {
            Seq::empty()
        }
    }

    /// The message for every connected session but `skip`, oldest session
    /// first.
    pub open spec fn broadcast(self, message: ServerMessageView, skip: Option<Seq<char>>) -> Seq<
        OutboundView,
    > {
        self.sessions.order.filter(not_skipped(skip)).map_values(addressed(message))
    }

    /// The coordinator in which `session` stands at `status`.
    pub open spec fn with_status(self, session: Seq<char>, status: UserStatus) -> ServerView {
        ServerView { user_statuses: self.user_statuses.inserted(session, status), ..self }
    }

    /// The other session that holds the name `username`, if there is one.
    pub open spec fn holder_of(self, session: Seq<char>, username: Seq<char>) -> Option<Seq<char>> {
        match self.users.get(username) {
            Some(former) => if former != session {
                Some(former)
            } else {
                None
            },
            None => None,
        }
    }

    /// The other name under which `session` is listed as a user, if there
    /// is one.
    pub open spec fn former_name_of(self, session: Seq<char>, username: Seq<char>) -> Option<
        Seq<char>,
    > {
        match self.sessions.get(session) {
            Some(name) => if name != username && self.users.get(name) == Some(session) {
                Some(name)
            } else {
                None
            },
            None => None,
        }
    }

    /// A session announces itself under a user name. Another session that
    /// holds the name is told so and forgotten; a name that the session had
    /// before is free again; every other session is told of the login.
    pub open spec fn connected(self, session: Seq<char>, username: Seq<char>) -> ServerStep {
        let evicted = self.holder_of(session, username);
        let told = match evicted {
            Some(former) => self.to_session(former, error_message(LOGGED_IN_ELSEWHERE@)),
            None => Seq::empty(),
        };
        let remaining = match evicted {
            Some(former) => self.sessions.removed(former),
            None => self.sessions,
        };
        let unbound = match self.former_name_of(session, username) {
            Some(name) => self.users.removed(name),
            None => self.users,
        };
        let server = ServerView {
            sessions: remaining.inserted(session, username),
            users: unbound.inserted(username, session),
            ..self
        };
        ServerStep {
            server,
            sent: told + server.broadcast(success_message(logged_in_text(username)), Some(session)),
        }
    }

    /// The opponent of `session` in `game`: the white player for the black
    /// one, the black player for anybody else.
    pub open spec fn opponent_of(game: GameView, session: Seq<char>) -> Seq<char> {
        if session == game.black_player_id {
            game.white_player_id
        } else {
            game.black_player_id
        }
    }

    /// The display name of the opponent of `session` in `game`.
    pub open spec fn opponent_name_of(game: GameView, session: Seq<char>) -> Seq<char> {
        if session == game.black_player_id {
            game.white_player_name
        } else {
            game.black_player_name
        }
    }

    /// The game of a session that is gone ends: the opponent has won, is
    /// told so and is idle again, and the game is forgotten. A listing
    /// without a game is just dropped.
    pub open spec fn abandoned(self, session: Seq<char>) -> ServerStep {
        match self.user_games.get(session) {
            Some(game_id) => match self.active_games.get(game_id) {
                Some(game) => {
                    let opponent = Self::opponent_of(game, session);
                    ServerStep {
                        server: ServerView {
                            user_statuses: self.user_statuses.inserted(opponent, UserStatus::Idle),
                            user_games: self.user_games.removed(opponent).removed(session),
                            active_games: self.active_games.removed(game_id),
                            ..self
                        },
                        sent: self.to_session(
                            opponent,
                            ServerMessageView::GameOver {
                                winner: Some(Self::opponent_name_of(game, session)),
                                reason: OPPONENT_DISCONNECTED@,
                            },
                        ),
                    }
                },
                None => ServerStep {
                    server: ServerView { user_games: self.user_games.removed(session), ..self },
                    sent: Seq::empty(),
                },
            },
            None => ServerStep { server: self, sent: Seq::empty() },
        }
    }

    /// A session takes leave. Nothing happens for a session that is not
    /// connected. A connected one is forgotten, leaves the queue, loses its
    /// game to the opponent, and every session that is left is told of the
    /// logout.
    pub open spec fn disconnected(self, session: Seq<char>) -> ServerStep {
        match self.sessions.get(session) {
            Some(username) => {
                let parted = ServerView {
                    sessions: self.sessions.removed(session),
                    users: self.users.removed(username),
                    user_statuses: self.user_statuses.removed(session),
                    matchmaking: self.matchmaking.dequeued(session),
                    ..self
                };
                let step = parted.abandoned(session);
                ServerStep {
                    server: step.server,
                    sent: step.sent + step.server.broadcast(
                        success_message(logged_out_text(username)),
                        None,
                    ),
                }
            },
            None => ServerStep { server: self, sent: Seq::empty() },
        }
    }

    /// A session asks to wait for an opponent, at `now`. It is refused
    /// where it is not connected, plays a game, or waits already.
    pub open spec fn joined_queue(self, session: Seq<char>, now: u64) -> ServerAttempt {
        match self.sessions.get(session) {
            Some(username) => if self.user_games.contains_key(session) {
                ServerAttempt { server: self, sent: Seq::empty(), refused: Some(ALREADY_IN_GAME@) }
            } else if self.matchmaking.in_queue(session) {
                ServerAttempt { server: self, sent: Seq::empty(), refused: Some(ALREADY_IN_QUEUE@) }
            } else {
                ServerAttempt {
                    server: ServerView {
                        matchmaking: self.matchmaking.enqueued(
                            session,
                            username,
                            DEFAULT_RATING,
                            now,
                        ),
                        ..self
                    }.with_status(session, UserStatus::SearchingMatch),
                    sent: self.to_session(session, success_message(JOINED_QUEUE@)),
                    refused: None,
                }
            },
            None => ServerAttempt {
                server: self,
                sent: Seq::empty(),
                refused: Some(SESSION_NOT_FOUND@),
            },
        }
    }

    /// A session asks to stop waiting.
    pub open spec fn left_queue(self, session: Seq<char>) -> ServerAttempt {
        if self.matchmaking.in_queue(session) {
            ServerAttempt {
                server: ServerView {
                    matchmaking: self.matchmaking.dequeued(session),
                    ..self
                }.with_status(session, UserStatus::Idle),
                sent: self.to_session(session, success_message(LEFT_QUEUE@)),
                refused: None,
            }
        } else {
            ServerAttempt { server: self, sent: Seq::empty(), refused: Some(NOT_IN_QUEUE@) }
        }
    }

    /// The snapshot of the game `game_id` for its two players, black
    /// first; nothing when there is no such game.
    pub open spec fn state_for_players(self, game_id: Seq<char>, state: GameStateView) -> Seq<
        OutboundView,
    > {
        match self.active_games.get(game_id) {
            Some(game) => self.to_session(
                game.black_player_id,
                state_message(state, DiskColor::Black),
            ) + self.to_session(game.white_player_id, state_message(state, DiskColor::White)),
            None => Seq::empty(),
        }
    }

    /// The display name of the winner that a snapshot of `game` names.
    pub open spec fn winner_name(game: GameView, state: GameStateView) -> Option<Seq<char>> {
        match state.winner {
            Some(id) => if id == game.black_player_id {
                Some(game.black_player_name)
            } else {
                Some(game.white_player_name)
            },
            None => None,
        }
    }

    /// The game `game_id` is over: both players are told who has won and
    /// are idle again, and the game is forgotten. Nothing happens when
    /// there is no such game.
    pub open spec fn game_over(self, game_id: Seq<char>, state: GameStateView) -> ServerStep {
        match self.active_games.get(game_id) {
            Some(game) => {
                let over = ServerMessageView::GameOver {
                    winner: Self::winner_name(game, state),
                    reason: GAME_COMPLETED@,
                };
                ServerStep {
                    server: ServerView {
                        user_statuses: self.user_statuses.inserted(
                            game.black_player_id,
                            UserStatus::Idle,
                        ).inserted(game.white_player_id, UserStatus::Idle),
                        user_games: self.user_games.removed(game.black_player_id).removed(
                            game.white_player_id,
                        ),
                        active_games: self.active_games.removed(game_id),
                        ..self
                    },
                    sent: self.to_session(game.black_player_id, over) + self.to_session(
                        game.white_player_id,
                        over,
                    ),
                }
            },
            None => ServerStep { server: self, sent: Seq::empty() },
        }
    }

    /// The game `game_id` has become `game`: its players are sent the new
    /// snapshot and, when the game is over, the game over.
    pub open spec fn game_changed(self, game_id: Seq<char>, game: GameView) -> ServerStep {
        let changed = ServerView { active_games: self.active_games.inserted(game_id, game), ..self };
        let shown = changed.state_for_players(game_id, game.state());
        if game.is_game_over {
            let step = changed.game_over(game_id, game.state());
            ServerStep { server: step.server, sent: shown + step.sent }
        } else {
            ServerStep { server: changed, sent: shown }
        }
    }

    /// A session asks to play a disk at `(x, y)`.
    pub open spec fn moved(self, session: Seq<char>, x: int, y: int) -> ServerAttempt {
        match self.user_games.get(session) {
            Some(game_id) => match self.active_games.get(game_id) {
                Some(game) => match game.move_error(session, x, y) {
                    Some(e) => ServerAttempt {
                        server: self,
                        sent: Seq::empty(),
                        refused: Some(e.text()),
                    },
                    None => {
                        let step = self.game_changed(game_id, game.moved(session, x, y));
                        ServerAttempt { server: step.server, sent: step.sent, refused: None }
                    },
                },
                None => ServerAttempt {
                    server: self,
                    sent: Seq::empty(),
                    refused: Some(GAME_NOT_FOUND@),
                },
            },
            None => ServerAttempt { server: self, sent: Seq::empty(), refused: Some(NOT_IN_GAME@) },
        }
    }

    /// A session asks to give its game up.
    pub open spec fn resigned(self, session: Seq<char>) -> ServerAttempt {
        match self.user_games.get(session) {
            Some(game_id) => match self.active_games.get(game_id) {
                Some(game) => match game.resign_error(session) {
                    Some(e) => ServerAttempt {
                        server: self,
                        sent: Seq::empty(),
                        refused: Some(e.text()),
                    },
                    None => {
                        let step = self.game_changed(game_id, game.resigned(session));
                        ServerAttempt { server: step.server, sent: step.sent, refused: None }
                    },
                },
                None => ServerAttempt {
                    server: self,
                    sent: Seq::empty(),
                    refused: Some(GAME_NOT_FOUND@),
                },
            },
            None => ServerAttempt { server: self, sent: Seq::empty(), refused: Some(NOT_IN_GAME@) },
        }
    }

    /// What an attempt comes to as an event: a refusal is reported to the
    /// session that asked, and to nobody else.
    pub open spec fn reported(self, session: Seq<char>, attempt: ServerAttempt) -> ServerStep {
        match attempt.refused {
            Some(reason) => ServerStep {
                server: attempt.server,
                sent: attempt.sent + attempt.server.to_session(session, error_message(reason)),
            },
            None => ServerStep { server: attempt.server, sent: attempt.sent },
        }
    }

    /// A request of a client, received at `now`.
    pub open spec fn requested(
        self,
        session: Seq<char>,
        message: ClientMessageView,
        now: u64,
    ) -> ServerStep {
        match message {
            ClientMessageView::JoinQueue => self.reported(session, self.joined_queue(session, now)),
            ClientMessageView::LeaveQueue => self.reported(session, self.left_queue(session)),
            ClientMessageView::MakeMove { x, y } => self.reported(
                session,
                self.moved(session, x as int, y as int),
            ),
            ClientMessageView::Resign => self.reported(session, self.resigned(session)),
            ClientMessageView::Heartbeat => ServerStep { server: self, sent: Seq::empty() },
            ClientMessageView::Authenticate { username } => ServerStep {
                server: self,
                sent: Seq::empty(),
            },
        }
    }

    /// The game of a new match starts: the first player has the black
    /// disks, the second the white ones; each is told of the opponent and
    /// sent the starting position. The match is pending no longer.
    pub open spec fn game_started(self, made: PendingMatchView) -> ServerStep {
        let game = GameView::fresh(
            made.match_id,
            made.player1_id,
            made.player1_name,
            made.player2_id,
            made.player2_name,
        );
        ServerStep {
            server: ServerView {
                active_games: self.active_games.inserted(made.match_id, game),
                user_games: self.user_games.inserted(made.player1_id, made.match_id).inserted(
                    made.player2_id,
                    made.match_id,
                ),
                user_statuses: self.user_statuses.inserted(
                    made.player1_id,
                    UserStatus::InGame,
                ).inserted(made.player2_id, UserStatus::InGame),
                matchmaking: self.matchmaking.cancelled(made.match_id),
                ..self
            },
            sent: self.to_session(
                made.player1_id,
                ServerMessageView::MatchFound { opponent: made.player2_name },
            ) + self.to_session(made.player1_id, state_message(game.state(), DiskColor::Black))
                + self.to_session(
                made.player2_id,
                ServerMessageView::MatchFound { opponent: made.player1_name },
            ) + self.to_session(made.player2_id, state_message(game.state(), DiskColor::White)),
        }
    }

    /// The games of the new matches start, one after the other.
    pub open spec fn games_started(self, made: Seq<PendingMatchView>) -> ServerStep
        decreases made.len(),
    {
        if made.len() == 0 {
            ServerStep { server: self, sent: Seq::empty() }
        } else {
            let before = self.games_started(made.drop_last());
            let step = before.server.game_started(made.last());
            ServerStep { server: step.server, sent: before.sent + step.sent }
        }
    }

    /// A match that was given up: both players are told so and are idle
    /// again.
    pub open spec fn match_expired(self, gone: PendingMatchView) -> ServerStep {
        ServerStep {
            server: self.with_status(gone.player1_id, UserStatus::Idle).with_status(
                gone.player2_id,
                UserStatus::Idle,
            ),
            sent: self.to_session(gone.player1_id, error_message(MATCH_TIMED_OUT@))
                + self.to_session(gone.player2_id, error_message(MATCH_TIMED_OUT@)),
        }
    }

    /// The matches that were given up, one after the other.
    pub open spec fn matches_expired(self, gone: Seq<PendingMatchView>) -> ServerStep
        decreases gone.len(),
    {
        if gone.len() == 0 {
            ServerStep { server: self, sent: Seq::empty() }
        } else {
            let before = self.matches_expired(gone.drop_last());
            let step = before.server.match_expired(gone.last());
            ServerStep { server: step.server, sent: before.sent + step.sent }
        }
    }

    /// What an event at `now` comes to; `made` are the matches that a tick
    /// of the matchmaking timer pairs.
    pub open spec fn handled(
        self,
        event: ServerEventView,
        made: Seq<PendingMatchView>,
        now: u64,
    ) -> ServerStep {
        match event {
            ServerEventView::Connect { session_id, username } => self.connected(
                session_id,
                username,
            ),
            ServerEventView::Disconnect { session_id } => self.disconnected(session_id),
            ServerEventView::ClientMessage { session_id, message } => self.requested(
                session_id,
                message,
                now,
            ),
            ServerEventView::RunMatchmaking => self.ticked(made, now),
        }
    }

    /// Whether an event at `now` leads to the coordinator `after` and sends
    /// the messages `sent`, a tick pairing the matches `made`.
    pub open spec fn leads_to(
        self,
        event: ServerEventView,
        made: Seq<PendingMatchView>,
        now: u64,
        after: ServerView,
        sent: Seq<OutboundView>,
    ) -> bool {
        &&& event is RunMatchmaking ==> self.matchmaking.pairs_off(made) && forall|i: int|
            0 <= i < made.len() ==> (#[trigger] made[i]).created_at == now && made[i].match_id.len()
                == 36
        &&& after == self.handled(event, made, now).server
        &&& sent == self.handled(event, made, now).sent
    }

    /// Whether a tick of the matchmaking timer at `now`, at which the
    /// matches `made` are paired, leads to the coordinator `after` and sends
    /// the messages `sent`: the matches pair the queue off, oldest first,
    /// all of them at `now` and each under an id of 36 characters, and the
    /// rest is as [`ServerView::ticked`] says.
    pub open spec fn ticks_to(
        self,
        made: Seq<PendingMatchView>,
        now: u64,
        after: ServerView,
        sent: Seq<OutboundView>,
    ) -> bool {
        &&& self.matchmaking.pairs_off(made)
        &&& forall|i: int|
            0 <= i < made.len() ==> (#[trigger] made[i]).created_at == now && made[i].match_id.len()
                == 36
        &&& after == self.ticked(made, now).server
        &&& sent == self.ticked(made, now).sent
    }

    /// A tick of the matchmaking timer at which the matches `made` were
    /// paired and the clock stood at `now`: the games of the new matches
    /// start, then the pending matches that are older than the timeout are
    /// given up.
    pub open spec fn ticked(self, made: Seq<PendingMatchView>, now: u64) -> ServerStep {
        let paired = ServerView { matchmaking: self.matchmaking.paired_all(made), ..self };
        let started = paired.games_started(made);
        let gone = started.server.matchmaking.expired(MATCH_TIMEOUT_MS, now);
        let cleaned = ServerView {
            matchmaking: started.server.matchmaking.cleaned(MATCH_TIMEOUT_MS, now),
            ..started.server
        };
        let expired = cleaned.matches_expired(gone);
        ServerStep { server: expired.server, sent: started.sent + expired.sent }
    }
}

/// The game coordinator.
pub struct GameServer {
    sessions: Registry<String>,
    users: Registry<String>,
    user_statuses: Registry<UserStatus>,
    matchmaking: MatchmakingService,
    active_games: Registry<Game>,
    user_games: Registry<String>,
}

impl View for GameServer {
    type V = ServerView;

    closed spec fn view(&self) -> ServerView {
        ServerView {
            sessions: self.sessions@,
            users: self.users@,
            user_statuses: self.user_statuses@,
            matchmaking: self.matchmaking@,
            active_games: self.active_games@,
            user_games: self.user_games@,
        }
    }
}

impl GameServer {
    /// The coordinator is well formed: its tables are sound and the board
    /// of every game has eight rows of eight cells.
    pub closed spec fn wf(&self) -> bool {
        &&& self.sessions.wf()
        &&& self.users.wf()
        &&& self.user_statuses.wf()
        &&& self.matchmaking.wf()
        &&& self.active_games.wf()
        &&& self.user_games.wf()
        &&& forall|g: Seq<char>|
            self.active_games@.map.contains_key(g) ==> well_formed(
                (#[trigger] self.active_games@.map[g]).board,
            )
    }

    /// A well-formed coordinator has a well-formed model.
    pub proof fn lemma_view_wf(&self)
        requires
            self.wf(),
        ensures
            self@.wf(),
    {
        self.sessions.lemma_view_wf();
        self.users.lemma_view_wf();
        self.user_statuses.lemma_view_wf();
        self.matchmaking.lemma_view_wf();
        self.active_games.lemma_view_wf();
        self.user_games.lemma_view_wf();
    }

    /// A coordinator that knows nobody.
    pub fn new() -> (server: Self)
        ensures
            server.wf(),
            server@ == ServerView::empty(),
    {
        GameServer {
            sessions: Registry::new(),
            users: Registry::new(),
            user_statuses: Registry::new(),
            matchmaking: MatchmakingService::new(),
            active_games: Registry::new(),
            user_games: Registry::new(),
        }
    }

    /// The number of connected sessions.
    pub fn session_count(&self) -> (n: usize)
        requires
            self.wf(),
        ensures
            n == self@.sessions.len(),
    {
        self.sessions.len()
    }

    /// The name of the user of a session, if the session is connected.
    pub fn username_of(&self, session_id: &str) -> (username: Option<&String>)
        requires
            self.wf(),
        ensures
            match username {
                Some(name) => self@.sessions.get(session_id@) == Some(name@),
                None => self@.sessions.get(session_id@) is None,
            },
    {
        self.sessions.get(session_id)
    }

    /// The session of a user, if the user is connected.
    pub fn session_of(&self, username: &str) -> (session_id: Option<&String>)
        requires
            self.wf(),
        ensures
            match session_id {
                Some(id) => self@.users.get(username@) == Some(id@),
                None => self@.users.get(username@) is None,
            },
    {
        self.users.get(username)
    }

    /// Where a session stands, if that was ever recorded.
    pub fn status_of(&self, session_id: &str) -> (status: Option<UserStatus>)
        requires
            self.wf(),
        ensures
            status == self@.user_statuses.get(session_id@),
    {
        match self.user_statuses.get(session_id) {
            Some(status) => Some(*status),
            None => None,
        }
    }

    /// The id of the game that a session plays, if it plays one.
    pub fn game_of(&self, session_id: &str) -> (game_id: Option<&String>)
        requires
            self.wf(),
        ensures
            match game_id {
                Some(id) => self@.user_games.get(session_id@) == Some(id@),
                None => self@.user_games.get(session_id@) is None,
            },
    {
        self.user_games.get(session_id)
    }

    /// The number of running games.
    pub fn active_game_count(&self) -> (n: usize)
        requires
            self.wf(),
        ensures
            n == self@.active_games.len(),
    {
        self.active_games.len()
    }

    /// The number of pending matches.
    pub fn pending_match_count(&self) -> (n: usize)
        requires
            self.wf(),
        ensures
            n == self@.matchmaking.pending.len(),
    {
        self.matchmaking.pending_len()
    }

    /// Whether a session waits in the matchmaking queue.
    pub fn is_queued(&self, session_id: &str) -> (waits: bool)
        requires
            self.wf(),
        ensures
            waits == self@.matchmaking.in_queue(session_id@),
    {
        self.matchmaking.is_queued(session_id)
    }

    /// Puts a message for one session into the outbox; a message for a
    /// session that is not connected is dropped.
    pub fn send_message_to_session(
        &self,
        session_id: &str,
        message: ServerMessage,
        outbox: &mut Vec<Outbound>,
    )
        requires
            self.wf(),
        ensures
            outbound_views(final(outbox)@) == outbound_views(old(outbox)@) + self@.to_session(
                session_id@,
                message@,
            ),
    {
        if self.sessions.contains_key(session_id) {
            outbox.push(Outbound { session_id: session_id.to_string(), message });
            assert(outbound_views(outbox@) =~= outbound_views(old(outbox)@) + self@.to_session(
                session_id@,
                message@,
            ));
        } else {
            assert(outbound_views(outbox@) =~= outbound_views(old(outbox)@) + self@.to_session(
                session_id@,
                message@,
            ));
        }
    }

    /// Puts a message for every connected session but `skip_id` into the
    /// outbox, oldest session first.
    fn broadcast_message(
        &self,
        message: &ServerMessage,
        skip_id: Option<&str>,
        outbox: &mut Vec<Outbound>,
    )
        requires
            self.wf(),
        ensures
            outbound_views(final(outbox)@) == outbound_views(old(outbox)@) + self@.broadcast(
                message@,
                match skip_id {
                    Some(skip) => Some(skip@),
                    None => None,
                },
            ),
    {
        let ghost skip: Option<Seq<char>> = match skip_id {
            Some(skip) => Some(skip@),
            None => None,
        };
        let ghost order = self@.sessions.order;
        let ghost wanted = not_skipped(skip);
        let ghost address = addressed(message@);
        let ghost before = outbound_views(outbox@);
        proof {
            reveal(Seq::filter);
            assert(order.take(0) =~= Seq::<Seq<char>>::empty());
            assert(outbound_views(outbox@) =~= before + order.take(0).filter(wanted).map_values(
                address,
            ));
        }
        let mut i: usize = 0;
        while i < self.sessions.len()
            invariant
                self.wf(),
                i <= order.len(),
                order == self@.sessions.order,
                wanted == not_skipped(skip),
                address == addressed(message@),
                skip == match skip_id {
                    Some(skip) => Some(skip@),
                    None => None,
                },
                outbound_views(outbox@) == before + order.take(i as int).filter(wanted).map_values(
                    address,
                ),
            decreases order.len() - i,
        {
            let id = self.sessions.key_at(i);
            let skipped = match skip_id {
                Some(skip) => str_eq(id.as_str(), skip),
                None => false,
            };
            proof {
                lemma_filter_step(order, wanted, i as int);
            }
            if !skipped {
                let ghost sent = outbound_views(outbox@);
                outbox.push(Outbound { session_id: id.clone(), message: message.clone() });
                assert(outbound_views(outbox@) =~= sent.push(address(order[i as int])));
                assert(outbound_views(outbox@) =~= before + order.take(i + 1).filter(
                    wanted,
                ).map_values(address));
            }
            i += 1;
        }
        assert(order.take(i as int) =~= order);
    }

    /// Records where a session stands.
    fn update_user_status(&mut self, user_id: &str, status: UserStatus)
        requires
            old(self).wf(),
        ensures
            final(self).wf(),
            final(self)@ == old(self)@.with_status(user_id@, status),
    {
        self.user_statuses.insert(user_id.to_string(), status);
    }

    /// A session announces itself under a user name. Another session that
    /// holds the name is told so and forgotten; a name that the session had
    /// before is free again; the session is recorded under its name; every
    /// other session is told of the login.
    pub fn handle_connect(&mut self, msg: Connect) -> (sent: Vec<Outbound>)
        requires
            old(self).wf(),
        ensures
            final(self).wf(),
            final(self)@ == old(self)@.connected(msg.session_id@, msg.username@).server,
            outbound_views(sent@) == old(self)@.connected(msg.session_id@, msg.username@).sent,
    {
        let mut outbox: Vec<Outbound> = Vec::new();
        assert(outbound_views(outbox@) =~= Seq::empty());
        let former: Option<String> = match self.users.get(msg.username.as_str()) {
            Some(id) => if str_eq(id.as_str(), msg.session_id.as_str()) {
                None
            } else {
                Some(id.clone())
            },
            None => None,
        };
        let former_name: Option<String> = match self.sessions.get(msg.session_id.as_str()) {
            Some(name) => {
                let listed = match self.users.get(name.as_str()) {
                    Some(id) => str_eq(id.as_str(), msg.session_id.as_str()),
                    None => false,
                };
                if listed && !str_eq(name.as_str(), msg.username.as_str()) {
                    Some(name.clone())
                } else {
                    None
                }
            },
            None => None,
        };
        match former {
            Some(old_session_id) => {
                self.send_message_to_session(
                    old_session_id.as_str(),
                    ServerMessage::Error { message: LOGGED_IN_ELSEWHERE.to_string() },
                    &mut outbox,
                );
                self.sessions.remove(old_session_id.as_str());
            },
            None => {},
        }
        match former_name {
            Some(name) => {
                self.users.remove(name.as_str());
            },
            None => {},
        }
        self.sessions.insert(msg.session_id.clone(), msg.username.clone());
        self.users.insert(msg.username.clone(), msg.session_id.clone());
        let text = String::from_str("User ").concat(msg.username.as_str()).concat(" has logged in");
        let notification = ServerMessage::Success { message: text };
        let ghost told = outbound_views(outbox@);
        self.broadcast_message(&notification, Some(msg.session_id.as_str()), &mut outbox);
        proof {
            let step = old(self)@.connected(msg.session_id@, msg.username@);
            assert(self@ == step.server);
            assert(outbound_views(outbox@) =~= step.sent);
        }
        outbox
    }

    /// Ends the game of a session that is gone: the opponent has won, is
    /// told so and is idle again, and the game is forgotten.
    fn abandon_game(&mut self, session_id: &str, outbox: &mut Vec<Outbound>)
        requires
            old(self).wf(),
        ensures
            final(self).wf(),
            final(self)@ == old(self)@.abandoned(session_id@).server,
            outbound_views(final(outbox)@) == outbound_views(old(outbox)@) + old(self)@.abandoned(
                session_id@,
            ).sent,
    {
        let game_id: String = match self.user_games.get(session_id) {
            Some(id) => id.clone(),
            None => {
                assert(outbound_views(outbox@) =~= outbound_views(old(outbox)@) + Seq::empty());
                return ;
            },
        };
        let found: Option<(String, String)> = match self.active_games.get(game_id.as_str()) {
            Some(game) => if str_eq(session_id, game.black_player_id().as_str()) {
                Some((game.white_player_id().clone(), game.white_player_name().clone()))
            } else {
                Some((game.black_player_id().clone(), game.black_player_name().clone()))
            },
            None => None,
        };
        match found {
            Some((opponent_id, winner_name)) => {
                let game_over = ServerMessage::GameOver {
                    winner: Some(winner_name),
                    reason: OPPONENT_DISCONNECTED.to_string(),
                };
                self.send_message_to_session(opponent_id.as_str(), game_over, outbox);
                self.update_user_status(opponent_id.as_str(), UserStatus::Idle);
                self.user_games.remove(opponent_id.as_str());
                self.user_games.remove(session_id);
                self.active_games.remove(game_id.as_str());
            },
            None => {
                self.user_games.remove(session_id);
                assert(outbound_views(outbox@) =~= outbound_views(old(outbox)@) + Seq::empty());
            },
        }
    }

    /// A session takes leave. Nothing happens for a session that is not
    /// connected. A connected one is forgotten together with its user and
    /// its status, leaves the queue, loses its game to the opponent, and
    /// every session that is left is told of the logout.
    pub fn handle_disconnect(&mut self, msg: Disconnect) -> (sent: Vec<Outbound>)
        requires
            old(self).wf(),
        ensures
            final(self).wf(),
            final(self)@ == old(self)@.disconnected(msg.session_id@).server,
            outbound_views(sent@) == old(self)@.disconnected(msg.session_id@).sent,
    {
        let mut outbox: Vec<Outbound> = Vec::new();
        assert(outbound_views(outbox@) =~= Seq::empty());
        let username = match self.sessions.remove(msg.session_id.as_str()) {
            Some(username) => username,
            None => {
                return outbox;
            },
        };
        self.users.remove(username.as_str());
        self.user_statuses.remove(msg.session_id.as_str());
        self.matchmaking.remove_from_queue(msg.session_id.as_str());
        self.abandon_game(msg.session_id.as_str(), &mut outbox);
        let text = String::from_str("User ").concat(username.as_str()).concat(" has logged out");
        let notification = ServerMessage::Success { message: text };
        self.broadcast_message(&notification, None, &mut outbox);
        proof {
            let step = old(self)@.disconnected(msg.session_id@);
            assert(outbound_views(outbox@) =~= step.sent);
        }
        outbox
    }

    /// Queues the user of a session for a match, joined at `now`. A session
    /// that is not connected, plays a game or waits already is refused, and
    /// nothing changes.
    pub fn add_user_to_matchmaking(
        &mut self,
        session_id: &str,
        now: u64,
        outbox: &mut Vec<Outbound>,
    ) -> (result: Result<(), &'static str>)
        requires
            old(self).wf(),
        ensures
            final(self).wf(),
            final(self)@ == old(self)@.joined_queue(session_id@, now).server,
            outbound_views(final(outbox)@) == outbound_views(old(outbox)@) + old(
                self,
            )@.joined_queue(session_id@, now).sent,
            match result {
                Ok(_) => old(self)@.joined_queue(session_id@, now).refused is None,
                Err(reason) => old(self)@.joined_queue(session_id@, now).refused == Some(reason@),
            },
    {
        let username: String = match self.sessions.get(session_id) {
            Some(username) => username.clone(),
            None => {
                assert(outbound_views(outbox@) =~= outbound_views(old(outbox)@) + Seq::empty());
                return Err(SESSION_NOT_FOUND);
            },
        };
        if self.user_games.contains_key(session_id) {
            assert(outbound_views(outbox@) =~= outbound_views(old(outbox)@) + Seq::empty());
            return Err(ALREADY_IN_GAME);
        }
        if self.matchmaking.add_to_queue_at(session_id.to_string(), username, DEFAULT_RATING, now) {
            self.update_user_status(session_id, UserStatus::SearchingMatch);
            let msg = ServerMessage::Success { message: JOINED_QUEUE.to_string() };
            self.send_message_to_session(session_id, msg, outbox);
            Ok(())
        } else {
            assert(outbound_views(outbox@) =~= outbound_views(old(outbox)@) + Seq::empty());
            Err(ALREADY_IN_QUEUE)
        }
    }

    /// Takes the user of a session out of the queue.
    pub fn remove_user_from_matchmaking(
        &mut self,
        session_id: &str,
        outbox: &mut Vec<Outbound>,
    ) -> (result: Result<(), &'static str>)
        requires
            old(self).wf(),
        ensures
            final(self).wf(),
            final(self)@ == old(self)@.left_queue(session_id@).server,
            outbound_views(final(outbox)@) == outbound_views(old(outbox)@) + old(self)@.left_queue(
                session_id@,
            ).sent,
            match result {
                Ok(_) => old(self)@.left_queue(session_id@).refused is None,
                Err(reason) => old(self)@.left_queue(session_id@).refused == Some(reason@),
            },
    {
        if self.matchmaking.remove_from_queue(session_id) {
            self.update_user_status(session_id, UserStatus::Idle);
            let msg = ServerMessage::Success { message: LEFT_QUEUE.to_string() };
            self.send_message_to_session(session_id, msg, outbox);
            Ok(())
        } else {
            assert(outbound_views(outbox@) =~= outbound_views(old(outbox)@) + Seq::empty());
            Err(NOT_IN_QUEUE)
        }
    }

    /// The message that shows a snapshot to the player of `color`.
    fn state_message_for(game_state: &GameState, color: DiskColor) -> (message: ServerMessage)
        ensures
            message@ == state_message(game_state@, color),
    {
        ServerMessage::GameState {
            board: clone_board(&game_state.board),
            current_player: game_state.current_player.clone(),
            your_color: color.to_string(),
        }
    }

    /// Sends a snapshot of the game to its two players, black first.
    fn send_game_state_to_players(
        &self,
        game_id: &str,
        game_state: &GameState,
        outbox: &mut Vec<Outbound>,
    )
        requires
            self.wf(),
        ensures
            outbound_views(final(outbox)@) == outbound_views(old(outbox)@)
                + self@.state_for_players(game_id@, game_state@),
    {
        match self.active_games.get(game_id) {
            Some(game) => {
                let black_state = Self::state_message_for(game_state, DiskColor::Black);
                self.send_message_to_session(game.black_player_id().as_str(), black_state, outbox);
                let white_state = Self::state_message_for(game_state, DiskColor::White);
                self.send_message_to_session(game.white_player_id().as_str(), white_state, outbox);
                assert(outbound_views(outbox@) =~= outbound_views(old(outbox)@)
                    + self@.state_for_players(game_id@, game_state@));
            },
            None => {
                assert(outbound_views(outbox@) =~= outbound_views(old(outbox)@) + Seq::empty());
            },
        }
    }

    /// Ends a game: both players are told who has won and are idle again,
    /// and the game is forgotten.
    pub fn handle_game_over(&mut self, game_id: &str, game_state: &GameState, outbox: &mut Vec<Outbound>)
        requires
            old(self).wf(),
        ensures
            final(self).wf(),
            final(self)@ == old(self)@.game_over(game_id@, game_state@).server,
            outbound_views(final(outbox)@) == outbound_views(old(outbox)@) + old(self)@.game_over(
                game_id@,
                game_state@,
            ).sent,
    {
        let found: Option<(String, String, Option<String>)> = match self.active_games.get(
            game_id,
        ) {
            Some(game) => {
                let winner_name = match &game_state.winner {
                    Some(player_id) => if str_eq(
                        player_id.as_str(),
                        game.black_player_id().as_str(),
                    ) {
                        Some(game.black_player_name().clone())
                    } else {
                        Some(game.white_player_name().clone())
                    },
                    None => None,
                };
                Some((game.black_player_id().clone(), game.white_player_id().clone(), winner_name))
            },
            None => None,
        };
        let (black_player_id, white_player_id, winner_name) = match found {
            Some(found) => found,
            None => {
                assert(outbound_views(outbox@) =~= outbound_views(old(outbox)@) + Seq::empty());
                return ;
            },
        };
        let game_over = ServerMessage::GameOver {
            winner: winner_name,
            reason: GAME_COMPLETED.to_string(),
        };
        self.send_message_to_session(black_player_id.as_str(), game_over.clone(), outbox);
        self.send_message_to_session(white_player_id.as_str(), game_over, outbox);
        self.update_user_status(black_player_id.as_str(), UserStatus::Idle);
        self.update_user_status(white_player_id.as_str(), UserStatus::Idle);
        self.user_games.remove(black_player_id.as_str());
        self.user_games.remove(white_player_id.as_str());
        self.active_games.remove(game_id);
        proof {
            let step = old(self)@.game_over(game_id@, game_state@);
            assert(outbound_views(outbox@) =~= outbound_views(old(outbox)@) + step.sent);
        }
    }

    /// Tells the players of a game that has changed, and ends the game
    /// when it is over.
    fn announce_game(&mut self, game_id: &str, game_state: &GameState, outbox: &mut Vec<Outbound>)
        requires
            old(self).wf(),
            old(self)@.active_games.map.contains_key(game_id@),
            game_state@ == old(self)@.active_games.map[game_id@].state(),
        ensures
            final(self).wf(),
            final(self)@ == old(self)@.game_changed(
                game_id@,
                old(self)@.active_games.map[game_id@],
            ).server,
            outbound_views(final(outbox)@) == outbound_views(old(outbox)@) + old(
                self,
            )@.game_changed(game_id@, old(self)@.active_games.map[game_id@]).sent,
    {
        proof {
            self.lemma_view_wf();
            let game = self@.active_games.map[game_id@];
            assert(self@.active_games.order.contains(game_id@));
            assert(self@.active_games.inserted(game_id@, game).map =~= self@.active_games.map);
            assert(self@.active_games.inserted(game_id@, game) == self@.active_games);
        }
        self.send_game_state_to_players(game_id, game_state, outbox);
        if game_state.is_game_over {
            self.handle_game_over(game_id, game_state, outbox);
        }
    }

    /// Plays a disk for the session in its game.
    pub fn handle_game_move(
        &mut self,
        session_id: &str,
        x: usize,
        y: usize,
        outbox: &mut Vec<Outbound>,
    ) -> (result: Result<(), String>)
        requires
            old(self).wf(),
        ensures
            final(self).wf(),
            final(self)@ == old(self)@.moved(session_id@, x as int, y as int).server,
            outbound_views(final(outbox)@) == outbound_views(old(outbox)@) + old(self)@.moved(
                session_id@,
                x as int,
                y as int,
            ).sent,
            match result {
                Ok(_) => old(self)@.moved(session_id@, x as int, y as int).refused is None,
                Err(reason) => old(self)@.moved(session_id@, x as int, y as int).refused == Some(
                    reason@,
                ),
            },
    {
        let game_id: String = match self.user_games.get(session_id) {
            Some(id) => id.clone(),
            None => {
                assert(outbound_views(outbox@) =~= outbound_views(old(outbox)@) + Seq::empty());
                return Err(NOT_IN_GAME.to_string());
            },
        };
        proof {
            self.lemma_view_wf();
        }
        let ghost before = self@;
        let moved = match self.active_games.get_mut(game_id.as_str()) {
            Some(game) => game.make_move(session_id, x, y),
            None => {
                assert(outbound_views(outbox@) =~= outbound_views(old(outbox)@) + Seq::empty());
                return Err(GAME_NOT_FOUND.to_string());
            },
        };
        match moved {
            Ok(game_state) => {
                proof {
                    let game = before.active_games.map[game_id@].moved(
                        session_id@,
                        x as int,
                        y as int,
                    );
                    assert(self@.active_games == before.active_games.inserted(game_id@, game));
                    assert(self@.active_games.inserted(game_id@, game).map
                        =~= self@.active_games.map);
                }
                self.announce_game(game_id.as_str(), &game_state, outbox);
                Ok(())
            },
            Err(e) => {
                proof {
                    assert(before.active_games.order.contains(game_id@));
                    assert(self@.active_games.map =~= before.active_games.map);
                    assert(outbound_views(outbox@) =~= outbound_views(old(outbox)@)
                        + Seq::empty());
                }
                Err(e)
            },
        }
    }

    /// Gives the game of the session up.
    pub fn handle_resign(&mut self, session_id: &str, outbox: &mut Vec<Outbound>) -> (result: Result<
        (),
        String,
    >)
        requires
            old(self).wf(),
        ensures
            final(self).wf(),
            final(self)@ == old(self)@.resigned(session_id@).server,
            outbound_views(final(outbox)@) == outbound_views(old(outbox)@) + old(self)@.resigned(
                session_id@,
            ).sent,
            match result {
                Ok(_) => old(self)@.resigned(session_id@).refused is None,
                Err(reason) => old(self)@.resigned(session_id@).refused == Some(reason@),
            },
    {
        let game_id: String = match self.user_games.get(session_id) {
            Some(id) => id.clone(),
            None => {
                assert(outbound_views(outbox@) =~= outbound_views(old(outbox)@) + Seq::empty());
                return Err(NOT_IN_GAME.to_string());
            },
        };
        proof {
            self.lemma_view_wf();
        }
        let ghost before = self@;
        let resigned = match self.active_games.get_mut(game_id.as_str()) {
            Some(game) => game.resign(session_id),
            None => {
                assert(outbound_views(outbox@) =~= outbound_views(old(outbox)@) + Seq::empty());
                return Err(GAME_NOT_FOUND.to_string());
            },
        };
        match resigned {
            Ok(game_state) => {
                proof {
                    let game = before.active_games.map[game_id@].resigned(session_id@);
                    assert(self@.active_games == before.active_games.inserted(game_id@, game));
                    assert(self@.active_games.inserted(game_id@, game).map
                        =~= self@.active_games.map);
                }
                self.announce_game(game_id.as_str(), &game_state, outbox);
                Ok(())
            },
            Err(e) => {
                proof {
                    assert(before.active_games.order.contains(game_id@));
                    assert(self@.active_games.map =~= before.active_games.map);
                    assert(outbound_views(outbox@) =~= outbound_views(old(outbox)@)
                        + Seq::empty());
                }
                Err(e)
            },
        }
    }

    /// Starts the game of a new match: the first player has the black
    /// disks, the second the white ones; each is told of the opponent and
    /// sent the starting position. The match is pending no longer.
    fn start_game(&mut self, created_match: &PendingMatch, outbox: &mut Vec<Outbound>)
        requires
            old(self).wf(),
        ensures
            final(self).wf(),
            final(self)@ == old(self)@.game_started(created_match@).server,
            outbound_views(final(outbox)@) == outbound_views(old(outbox)@) + old(
                self,
            )@.game_started(created_match@).sent,
    {
        let game_id = created_match.match_id.clone();
        let game = Game::new(
            game_id.clone(),
            created_match.player1_id.clone(),
            created_match.player1_name.clone(),
            created_match.player2_id.clone(),
            created_match.player2_name.clone(),
        );
        let game_state = game.get_state();
        self.matchmaking.cancel_match(game_id.as_str());
        self.active_games.insert(game_id.clone(), game);
        self.user_games.insert(created_match.player1_id.clone(), game_id.clone());
        self.user_games.insert(created_match.player2_id.clone(), game_id.clone());
        let msg1 = ServerMessage::MatchFound { opponent: created_match.player2_name.clone() };
        self.send_message_to_session(created_match.player1_id.as_str(), msg1, outbox);
        self.update_user_status(created_match.player1_id.as_str(), UserStatus::InGame);
        let black_state = Self::state_message_for(&game_state, DiskColor::Black);
        self.send_message_to_session(created_match.player1_id.as_str(), black_state, outbox);
        let msg2 = ServerMessage::MatchFound { opponent: created_match.player1_name.clone() };
        self.send_message_to_session(created_match.player2_id.as_str(), msg2, outbox);
        self.update_user_status(created_match.player2_id.as_str(), UserStatus::InGame);
        let white_state = Self::state_message_for(&game_state, DiskColor::White);
        self.send_message_to_session(created_match.player2_id.as_str(), white_state, outbox);
        proof {
            let step = old(self)@.game_started(created_match@);
            assert(outbound_views(outbox@) =~= outbound_views(old(outbox)@) + step.sent);
        }
    }

    /// Gives a match up that has waited too long: both players are told so
    /// and are idle again.
    fn expire_match(&mut self, expired_match: &PendingMatch, outbox: &mut Vec<Outbound>)
        requires
            old(self).wf(),
        ensures
            final(self).wf(),
            final(self)@ == old(self)@.match_expired(expired_match@).server,
            outbound_views(final(outbox)@) == outbound_views(old(outbox)@) + old(
                self,
            )@.match_expired(expired_match@).sent,
    {
        let msg1 = ServerMessage::Error { message: MATCH_TIMED_OUT.to_string() };
        self.send_message_to_session(expired_match.player1_id.as_str(), msg1, outbox);
        self.update_user_status(expired_match.player1_id.as_str(), UserStatus::Idle);
        let msg2 = ServerMessage::Error { message: MATCH_TIMED_OUT.to_string() };
        self.send_message_to_session(expired_match.player2_id.as_str(), msg2, outbox);
        self.update_user_status(expired_match.player2_id.as_str(), UserStatus::Idle);
        proof {
            let step = old(self)@.match_expired(expired_match@);
            assert(outbound_views(outbox@) =~= outbound_views(old(outbox)@) + step.sent);
        }
    }

    /// Starts the games of the matches that were just made, one after the
    /// other.
    fn start_games(&mut self, created_matches: &Vec<PendingMatch>, outbox: &mut Vec<Outbound>)
        requires
            old(self).wf(),
        ensures
            final(self).wf(),
            final(self)@ == old(self)@.games_started(match_views(created_matches@)).server,
            outbound_views(final(outbox)@) == outbound_views(old(outbox)@) + old(
                self,
            )@.games_started(match_views(created_matches@)).sent,
    {
        let ghost before = self@;
        let ghost sent = outbound_views(outbox@);
        let ghost made = match_views(created_matches@);
        let mut i: usize = 0;
        proof {
            assert(made.take(0) =~= Seq::<PendingMatchView>::empty());
            assert(outbound_views(outbox@) =~= sent + Seq::empty());
        }
        while i < created_matches.len()
            invariant
                self.wf(),
                i <= created_matches@.len(),
                made == match_views(created_matches@),
                self@ == before.games_started(made.take(i as int)).server,
                outbound_views(outbox@) == sent + before.games_started(made.take(i as int)).sent,
            decreases created_matches@.len() - i,
        {
            let ghost so_far = outbound_views(outbox@);
            self.start_game(&created_matches[i], outbox);
            proof {
                assert(made.take(i + 1).drop_last() =~= made.take(i as int));
                assert(made.take(i + 1).last() == created_matches@[i as int]@);
                assert(outbound_views(outbox@) =~= sent + before.games_started(
                    made.take(i + 1),
                ).sent);
            }
            i += 1;
        }
        assert(made.take(i as int) =~= made);
    }

    /// Gives the matches up that have waited too long, one after the other.
    fn expire_matches(&mut self, expired_matches: &Vec<PendingMatch>, outbox: &mut Vec<Outbound>)
        requires
            old(self).wf(),
        ensures
            final(self).wf(),
            final(self)@ == old(self)@.matches_expired(match_views(expired_matches@)).server,
            outbound_views(final(outbox)@) == outbound_views(old(outbox)@) + old(
                self,
            )@.matches_expired(match_views(expired_matches@)).sent,
    {
        let ghost before = self@;
        let ghost sent = outbound_views(outbox@);
        let ghost gone = match_views(expired_matches@);
        let mut i: usize = 0;
        proof {
            assert(gone.take(0) =~= Seq::<PendingMatchView>::empty());
            assert(outbound_views(outbox@) =~= sent + Seq::empty());
        }
        while i < expired_matches.len()
            invariant
                self.wf(),
                i <= expired_matches@.len(),
                gone == match_views(expired_matches@),
                self@ == before.matches_expired(gone.take(i as int)).server,
                outbound_views(outbox@) == sent + before.matches_expired(gone.take(i as int)).sent,
            decreases expired_matches@.len() - i,
        {
            self.expire_match(&expired_matches[i], outbox);
            proof {
                assert(gone.take(i + 1).drop_last() =~= gone.take(i as int));
                assert(gone.take(i + 1).last() == expired_matches@[i as int]@);
                assert(outbound_views(outbox@) =~= sent + before.matches_expired(
                    gone.take(i + 1),
                ).sent);
            }
            i += 1;
        }
        assert(gone.take(i as int) =~= gone);
    }

    /// A tick of the matchmaking timer at `now`: the waiting players are
    /// paired off and their games start; then the pending matches that are
    /// older than the timeout are given up. The ids of the new matches are
    /// freshly minted, so the contract speaks of the matches that were
    /// made.
    pub fn run_matchmaking_at(&mut self, now: u64) -> (sent: Vec<Outbound>)
        requires
            old(self).wf(),
        ensures
            final(self).wf(),
            exists|made: Seq<PendingMatchView>|
                old(self)@.ticks_to(made, now, final(self)@, outbound_views(sent@)),
    {
        let mut outbox: Vec<Outbound> = Vec::new();
        assert(outbound_views(outbox@) =~= Seq::empty());
        let created_matches = self.matchmaking.find_matches_at(now);
        let ghost made = match_views(created_matches@);
        self.start_games(&created_matches, &mut outbox);
        let expired_matches = self.matchmaking.cleanup_pending_matches_at(MATCH_TIMEOUT_MS, now);
        self.expire_matches(&expired_matches, &mut outbox);
        proof {
            let step = old(self)@.ticked(made, now);
            assert(self@ == step.server);
            assert(outbound_views(outbox@) =~= step.sent);
            assert(old(self)@.ticks_to(made, now, self@, outbound_views(outbox@)));
        }
        outbox
    }

    /// A tick of the matchmaking timer at the present reading of the
    /// coordinator's clock.
    pub fn run_matchmaking(&mut self) -> (sent: Vec<Outbound>)
        requires
            old(self).wf(),
        ensures
            final(self).wf(),
            exists|made: Seq<PendingMatchView>, now: u64|
                old(self)@.ticks_to(made, now, final(self)@, outbound_views(sent@)),
    {
        let now = self.matchmaking.now();
        self.run_matchmaking_at(now)
    }

    /// Reports a refusal to the session that asked.
    fn report(&self, session_id: &str, reason: String, outbox: &mut Vec<Outbound>)
        requires
            self.wf(),
        ensures
            outbound_views(final(outbox)@) == outbound_views(old(outbox)@) + self@.to_session(
                session_id@,
                error_message(reason@),
            ),
    {
        let error_msg = ServerMessage::Error { message: reason };
        self.send_message_to_session(session_id, error_msg, outbox);
    }

    /// Deals with a request of a client that was received at `now`. A
    /// request that is refused is answered with the reason, to the session
    /// that asked and to nobody else.
    pub fn handle_client_message_at(&mut self, msg: ClientMessageWrapper, now: u64) -> (sent: Vec<
        Outbound,
    >)
        requires
            old(self).wf(),
        ensures
            final(self).wf(),
            final(self)@ == old(self)@.requested(msg.session_id@, msg.message@, now).server,
            outbound_views(sent@) == old(self)@.requested(msg.session_id@, msg.message@, now).sent,
    {
        let mut outbox: Vec<Outbound> = Vec::new();
        assert(outbound_views(outbox@) =~= Seq::empty());
        let session_id = msg.session_id.as_str();
        match msg.message {
            ClientMessage::JoinQueue => {
                match self.add_user_to_matchmaking(session_id, now, &mut outbox) {
                    Ok(_) => {},
                    Err(e) => {
                        self.report(session_id, e.to_string(), &mut outbox);
                    },
                }
            },
            ClientMessage::LeaveQueue => {
                match self.remove_user_from_matchmaking(session_id, &mut outbox) {
                    Ok(_) => {},
                    Err(e) => {
                        self.report(session_id, e.to_string(), &mut outbox);
                    },
                }
            },
            ClientMessage::MakeMove { x, y } => {
                match self.handle_game_move(session_id, x, y, &mut outbox) {
                    Ok(_) => {},
                    Err(e) => {
                        self.report(session_id, e, &mut outbox);
                    },
                }
            },
            ClientMessage::Resign => {
                match self.handle_resign(session_id, &mut outbox) {
                    Ok(_) => {},
                    Err(e) => {
                        self.report(session_id, e, &mut outbox);
                    },
                }
            },
            ClientMessage::Heartbeat => {},
            ClientMessage::Authenticate { username: _ } => {},
        }
        proof {
            let step = old(self)@.requested(msg.session_id@, msg.message@, now);
            assert(outbound_views(outbox@) =~= step.sent);
        }
        outbox
    }

    /// Deals with a request of a client, received at the present reading
    /// of the coordinator's clock.
    pub fn handle_client_message(&mut self, msg: ClientMessageWrapper) -> (sent: Vec<Outbound>)
        requires
            old(self).wf(),
        ensures
            final(self).wf(),
            exists|now: u64|
                old(self)@.requested(msg.session_id@, msg.message@, now) == (ServerStep {
                    server: final(self)@,
                    sent: outbound_views(sent@),
                }),
    {
        let now = self.matchmaking.now();
        self.handle_client_message_at(msg, now)
    }

    /// Deals with an event at `now`.
    pub fn handle_at(&mut self, event: ServerEvent, now: u64) -> (sent: Vec<Outbound>)
        requires
            old(self).wf(),
        ensures
            final(self).wf(),
            exists|made: Seq<PendingMatchView>|
                old(self)@.leads_to(event@, made, now, final(self)@, outbound_views(sent@)),
    {
        match event {
            ServerEvent::Connect(msg) => {
                let sent = self.handle_connect(msg);
                assert(old(self)@.leads_to(
                    event@,
                    Seq::empty(),
                    now,
                    self@,
                    outbound_views(sent@),
                ));
                sent
            },
            ServerEvent::Disconnect(msg) => {
                let sent = self.handle_disconnect(msg);
                assert(old(self)@.leads_to(
                    event@,
                    Seq::empty(),
                    now,
                    self@,
                    outbound_views(sent@),
                ));
                sent
            },
            ServerEvent::ClientMessage(msg) => {
                let sent = self.handle_client_message_at(msg, now);
                assert(old(self)@.leads_to(
                    event@,
                    Seq::empty(),
                    now,
                    self@,
                    outbound_views(sent@),
                ));
                sent
            },
            ServerEvent::RunMatchmaking => {
                let sent = self.run_matchmaking_at(now);
                proof {
                    let made = choose|made: Seq<PendingMatchView>|
                        old(self)@.ticks_to(made, now, self@, outbound_views(sent@));
                    assert(old(self)@.leads_to(event@, made, now, self@, outbound_views(sent@)));
                }
                sent
            },
        }
    }

    /// Deals with an event at the present reading of the coordinator's
    /// clock.
    pub fn handle(&mut self, event: ServerEvent) -> (sent: Vec<Outbound>)
        requires
            old(self).wf(),
        ensures
            final(self).wf(),
            exists|made: Seq<PendingMatchView>, now: u64|
                old(self)@.leads_to(event@, made, now, final(self)@, outbound_views(sent@)),
    {
        let now = self.matchmaking.now();
        self.handle_at(event, now)
    }
}

} // verus!
