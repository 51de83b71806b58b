//! What holds of the coordinator after every event, and what its events
//! have in common.
//!
//! The laws are stated on the model of the coordinator, over the same
//! functions in which the contracts of the coordinator's operations are
//! written.

use crate::board::{well_formed, DiskColor};
use crate::game::GameView;
use crate::matchmaking::{
    lemma_cancelled_wf, lemma_cleaned_wf, lemma_dequeued_wf, lemma_enqueued_wf,
    lemma_paired_all_pending, lemma_paired_all_queue, lemma_pairs_off_players,
    PendingMatchView,
};
use crate::message::{ClientMessageView, ServerMessageView};
use crate::game::GameStateView;
use crate::server::{
    error_message, state_message, OutboundView, ServerEventView, ServerView, DEFAULT_RATING,
    GAME_COMPLETED, MATCH_TIMEOUT_MS, NOT_IN_QUEUE,
};
use crate::session::UserStatus;
use vstd::prelude::*;

verus! {

/// A coordinator that knows nobody satisfies the invariants.
pub proof fn lemma_empty_server_inv()
    ensures
        ServerView::empty().wf(),
        ServerView::empty().inv(),
{
}

/// A session that announces itself leaves the invariants intact.
pub proof fn lemma_connect_keeps_inv(server: ServerView, session: Seq<char>, username: Seq<char>)
    requires
        server.wf(),
        server.inv(),
    ensures
        server.connected(session, username).server.inv(),
{
    let after = server.connected(session, username).server;
    assert(after.users_indexed()) by {
        assert forall|u: Seq<char>| #[trigger] after.users.map.contains_key(u) implies (
        after.sessions.map.contains_key(after.users.map[u]) && after.sessions.map[after.users.map[u]]
            == u) by {
            if u != username {
                assert(server.users.map.contains_key(u));
            }
        }
        assert forall|s: Seq<char>| #[trigger] after.sessions.map.contains_key(s) implies (
        after.users.map.contains_key(after.sessions.map[s]) && after.users.map[after.sessions.map[s]]
            == s) by {
            if s != session {
                assert(server.sessions.map.contains_key(s));
            }
        }
    }
}

/// A session that takes leave leaves the invariants intact.
pub proof fn lemma_disconnect_keeps_inv(server: ServerView, session: Seq<char>)
    requires
        server.wf(),
        server.inv(),
    ensures
        server.disconnected(session).server.inv(),
{
    let after = server.disconnected(session).server;
    if server.sessions.map.contains_key(session) {
        let username = server.sessions.map[session];
        assert(after.users_indexed()) by {
            assert forall|u: Seq<char>| #[trigger] after.users.map.contains_key(u) implies (
            after.sessions.map.contains_key(after.users.map[u])
                && after.sessions.map[after.users.map[u]] == u) by {
                assert(server.users.map.contains_key(u));
            }
            assert forall|s: Seq<char>| #[trigger] after.sessions.map.contains_key(s) implies (
            after.users.map.contains_key(after.sessions.map[s])
                && after.users.map[after.sessions.map[s]] == s) by {
                assert(server.sessions.map.contains_key(s));
            }
        }
        assert(after.games_indexed()) by {
            assert forall|s: Seq<char>| #[trigger] after.user_games.map.contains_key(s) implies (
            after.active_games.map.contains_key(after.user_games.map[s])
                && after.active_games.map[after.user_games.map[s]].has_player(s)) by {
                assert(server.user_games.map.contains_key(s));
            }
        }
        assert(after.queue_apart()) by {
            assert forall|s: Seq<char>|
                !(#[trigger] after.matchmaking.queue.map.contains_key(s)
                    && after.user_games.map.contains_key(s)) by {
                if after.matchmaking.queue.map.contains_key(s) {
                    assert(server.matchmaking.queue.map.contains_key(s));
                }
            }
        }
        assert(after.players_apart()) by {
            assert forall|g: Seq<char>| #[trigger] after.active_games.map.contains_key(g) implies (
            after.active_games.map[g].black_player_id != after.active_games.map[g].white_player_id)
            by {
                assert(server.active_games.map.contains_key(g));
            }
        }
    }
}

/// A game that has changed without changing its players, and has ended if
/// it is over, leaves the invariants intact.
pub proof fn lemma_game_change_keeps_inv(
    server: ServerView,
    game_id: Seq<char>,
    game: GameView,
)
    requires
        server.wf(),
        server.inv(),
        server.active_games.map.contains_key(game_id),
        game.black_player_id == server.active_games.map[game_id].black_player_id,
        game.white_player_id == server.active_games.map[game_id].white_player_id,
    ensures
        server.game_changed(game_id, game).server.inv(),
{
    let after = server.game_changed(game_id, game).server;
    assert(after.games_indexed()) by {
        assert forall|s: Seq<char>| #[trigger] after.user_games.map.contains_key(s) implies (
        after.active_games.map.contains_key(after.user_games.map[s])
            && after.active_games.map[after.user_games.map[s]].has_player(s)) by {
            assert(server.user_games.map.contains_key(s));
        }
    }
    assert(after.queue_apart()) by {
        assert forall|s: Seq<char>|
            !(#[trigger] after.matchmaking.queue.map.contains_key(s)
                && after.user_games.map.contains_key(s)) by {
            if after.user_games.map.contains_key(s) {
                assert(server.user_games.map.contains_key(s));
            }
        }
    }
    assert(after.players_apart()) by {
        assert forall|g: Seq<char>| #[trigger] after.active_games.map.contains_key(g) implies (
        after.active_games.map[g].black_player_id != after.active_games.map[g].white_player_id) by {
            if g != game_id {
                assert(server.active_games.map.contains_key(g));
            }
        }
    }
}

/// A request of a client leaves the invariants intact.
pub proof fn lemma_request_keeps_inv(
    server: ServerView,
    session: Seq<char>,
    message: ClientMessageView,
    now: u64,
)
    requires
        server.wf(),
        server.inv(),
    ensures
        server.requested(session, message, now).server.inv(),
{
    let after = server.requested(session, message, now).server;
    match message {
        ClientMessageView::JoinQueue => {
            assert(after.queue_apart()) by {
                assert forall|s: Seq<char>|
                    !(#[trigger] after.matchmaking.queue.map.contains_key(s)
                        && after.user_games.map.contains_key(s)) by {
                    if s != session && after.matchmaking.queue.map.contains_key(s) {
                        assert(server.matchmaking.queue.map.contains_key(s));
                    }
                }
            }
        },
        ClientMessageView::LeaveQueue => {
            assert(after.queue_apart()) by {
                assert forall|s: Seq<char>|
                    !(#[trigger] after.matchmaking.queue.map.contains_key(s)
                        && after.user_games.map.contains_key(s)) by {
                    if after.matchmaking.queue.map.contains_key(s) {
                        assert(server.matchmaking.queue.map.contains_key(s));
                    }
                }
            }
        },
        ClientMessageView::MakeMove { x, y } => {
            if server.moved(session, x as int, y as int).refused is None {
                let game_id = server.user_games.map[session];
                let game = server.active_games.map[game_id];
                lemma_game_change_keeps_inv(server, game_id, game.moved(session, x as int, y as int));
            }
        },
        ClientMessageView::Resign => {
            if server.resigned(session).refused is None {
                let game_id = server.user_games.map[session];
                let game = server.active_games.map[game_id];
                lemma_game_change_keeps_inv(server, game_id, game.resigned(session));
            }
        },
        _ => {},
    }
}

/// A second leave of the same session changes nothing and sends nothing.
pub proof fn lemma_disconnect_twice(server: ServerView, session: Seq<char>)
    ensures
        server.disconnected(session).server.disconnected(session).server == server.disconnected(
            session,
        ).server,
        server.disconnected(session).server.disconnected(session).sent == Seq::<
            OutboundView,
        >::empty(),
{
    let once = server.disconnected(session).server;
    assert(!once.sessions.map.contains_key(session));
}

/// A session that does not wait and asks to leave the queue is refused;
/// nothing changes, and the refusal is all that is sent.
pub proof fn lemma_leave_queue_when_absent(server: ServerView, session: Seq<char>, now: u64)
    requires
        !server.matchmaking.in_queue(session),
    ensures
        server.left_queue(session).refused == Some(NOT_IN_QUEUE@),
        server.left_queue(session).server == server,
        server.matchmaking.dequeued(session).queue.map == server.matchmaking.queue.map,
        server.matchmaking.dequeued(session).queue.order == server.matchmaking.queue.order,
        server.requested(session, ClientMessageView::LeaveQueue, now).server == server,
        server.requested(session, ClientMessageView::LeaveQueue, now).sent == server.to_session(
            session,
            error_message(NOT_IN_QUEUE@),
        ),
{
    assert(server.matchmaking.queue.map.remove(session) =~= server.matchmaking.queue.map);
}

/// Starting the games of new matches leaves the tables in agreement, where
/// the ids of the matches are new and differ from one another, the two
/// players of each match differ, and none of them waits in the queue. The
/// queue, the sessions and the users stay as they are.
pub proof fn lemma_games_started_keep_inv(server: ServerView, made: Seq<PendingMatchView>)
    requires
        server.indexed(),
        forall|i: int|
            0 <= i < made.len() ==> !server.active_games.map.contains_key(
                (#[trigger] made[i]).match_id,
            ),
        forall|i: int, j: int|
            0 <= i < j < made.len() ==> (#[trigger] made[i]).match_id != (
            #[trigger] made[j]).match_id,
        forall|i: int|
            0 <= i < made.len() ==> (#[trigger] made[i]).player1_id != made[i].player2_id,
        forall|i: int|
            0 <= i < made.len() ==> !server.matchmaking.queue.map.contains_key(
                (#[trigger] made[i]).player1_id,
            ) && !server.matchmaking.queue.map.contains_key(made[i].player2_id),
    ensures
        server.games_started(made).server.indexed(),
        server.games_started(made).server.matchmaking.queue == server.matchmaking.queue,
        server.games_started(made).server.sessions == server.sessions,
        server.games_started(made).server.users == server.users,
        forall|g: Seq<char>|
            #[trigger] server.games_started(made).server.active_games.map.contains_key(g) ==> (
            server.active_games.map.contains_key(g) || exists|i: int|
                0 <= i < made.len() && (#[trigger] made[i]).match_id == g),
    decreases made.len(),
{
    if made.len() > 0 {
        let shorter = made.drop_last();
        let last = made.last();
        assert forall|i: int| 0 <= i < shorter.len() implies (#[trigger] shorter[i]) == made[i] by {}
        lemma_games_started_keep_inv(server, shorter);
        let before = server.games_started(shorter).server;
        let after = server.games_started(made).server;
        assert(after == before.game_started(last).server);
        assert(!before.active_games.map.contains_key(last.match_id)) by {
            if before.active_games.map.contains_key(last.match_id) {
                let i = choose|i: int|
                    0 <= i < shorter.len() && (#[trigger] shorter[i]).match_id == last.match_id;
                assert(made[i].match_id == made[made.len() - 1].match_id);
            }
        }
        assert(after.games_indexed()) by {
            assert forall|s: Seq<char>| #[trigger] after.user_games.map.contains_key(s) implies (
            after.active_games.map.contains_key(after.user_games.map[s])
                && after.active_games.map[after.user_games.map[s]].has_player(s)) by {
                if s != last.player1_id && s != last.player2_id {
                    assert(before.user_games.map.contains_key(s));
                }
            }
        }
        assert(after.queue_apart()) by {
            assert forall|s: Seq<char>|
                !(#[trigger] after.matchmaking.queue.map.contains_key(s)
                    && after.user_games.map.contains_key(s)) by {
                if after.matchmaking.queue.map.contains_key(s) {
                    assert(before.matchmaking.queue.map.contains_key(s));
                    assert(made[made.len() - 1].player1_id != s);
                }
            }
        }
        assert(after.players_apart()) by {
            assert forall|g: Seq<char>| #[trigger] after.active_games.map.contains_key(g) implies (
            after.active_games.map[g].black_player_id != after.active_games.map[g].white_player_id)
            by {
                if g != last.match_id {
                    assert(before.active_games.map.contains_key(g));
                }
            }
        }
        assert forall|g: Seq<char>| #[trigger]
            after.active_games.map.contains_key(g) implies (server.active_games.map.contains_key(g)
            || exists|i: int| 0 <= i < made.len() && (#[trigger] made[i]).match_id == g) by {
            if g == last.match_id {
                assert(made[made.len() - 1].match_id == g);
            } else {
                assert(before.active_games.map.contains_key(g));
                if !server.active_games.map.contains_key(g) {
                    let i = choose|i: int|
                        0 <= i < shorter.len() && (#[trigger] shorter[i]).match_id == g;
                    assert(made[i].match_id == g);
                }
            }
        }
    }
}

/// Giving matches up changes nothing but where sessions stand.
pub proof fn lemma_matches_expired_touch_statuses(server: ServerView, gone: Seq<PendingMatchView>)
    ensures
        server.matches_expired(gone).server.sessions == server.sessions,
        server.matches_expired(gone).server.users == server.users,
        server.matches_expired(gone).server.matchmaking == server.matchmaking,
        server.matches_expired(gone).server.active_games == server.active_games,
        server.matches_expired(gone).server.user_games == server.user_games,
    decreases gone.len(),
{
    if gone.len() > 0 {
        lemma_matches_expired_touch_statuses(server, gone.drop_last());
    }
}

/// A tick of the matchmaking timer leaves the invariants intact, where the
/// ids of the new matches are ids of no running game and differ from one
/// another.
pub proof fn lemma_tick_keeps_inv(server: ServerView, made: Seq<PendingMatchView>, now: u64)
    requires
        server.wf(),
        server.inv(),
        server.matchmaking.pairs_off(made),
        forall|i: int|
            0 <= i < made.len() ==> !server.active_games.map.contains_key(
                (#[trigger] made[i]).match_id,
            ),
        forall|i: int, j: int|
            0 <= i < j < made.len() ==> (#[trigger] made[i]).match_id != (
            #[trigger] made[j]).match_id,
    ensures
        server.ticked(made, now).server.inv(),
{
    let queue = server.matchmaking.queue;
    let order = queue.order;
    let n = made.len() as int;
    lemma_paired_all_queue(server.matchmaking, made);
    let paired = ServerView { matchmaking: server.matchmaking.paired_all(made), ..server };
    let later = order.skip(2 * n);
    assert forall|i: int| 0 <= i < made.len() implies (#[trigger] made[i]).player1_id == order[2
        * i] && made[i].player2_id == order[2 * i + 1] by {
        assert(order.contains(order[2 * i]));
        assert(order.contains(order[2 * i + 1]));
        assert(queue.map.contains_key(order[2 * i]));
        assert(queue.map.contains_key(order[2 * i + 1]));
        assert(queue.map[order[2 * i]].user_id == order[2 * i]);
        assert(queue.map[order[2 * i + 1]].user_id == order[2 * i + 1]);
    }
    assert forall|i: int| 0 <= i < made.len() implies !paired.matchmaking.queue.map.contains_key(
        (#[trigger] made[i]).player1_id,
    ) && !paired.matchmaking.queue.map.contains_key(made[i].player2_id) by {
        if later.contains(order[2 * i]) {
            let j = choose|j: int| 0 <= j < later.len() && later[j] == order[2 * i];
            assert(order[2 * n + j] == order[2 * i]);
        }
        if later.contains(order[2 * i + 1]) {
            let j = choose|j: int| 0 <= j < later.len() && later[j] == order[2 * i + 1];
            assert(order[2 * n + j] == order[2 * i + 1]);
        }
    }
    assert(paired.queue_apart()) by {
        assert forall|s: Seq<char>|
            !(#[trigger] paired.matchmaking.queue.map.contains_key(s)
                && paired.user_games.map.contains_key(s)) by {
            if paired.matchmaking.queue.map.contains_key(s) {
                assert(server.matchmaking.queue.map.contains_key(s));
            }
        }
    }
    lemma_games_started_keep_inv(paired, made);
    let started = paired.games_started(made).server;
    let cleaned = ServerView {
        matchmaking: started.matchmaking.cleaned(MATCH_TIMEOUT_MS, now),
        ..started
    };
    assert(cleaned.indexed());
    lemma_tick_leaves_none_pending(server, made, now);
    let gone = started.matchmaking.expired(MATCH_TIMEOUT_MS, now);
    lemma_matches_expired_touch_statuses(cleaned, gone);
    let after = cleaned.matches_expired(gone).server;
    assert(after == server.ticked(made, now).server);
    assert(after.games_indexed());
    assert(after.users_indexed());
    assert(after.queue_apart());
    assert(after.players_apart());
}

/// The messages among `sent` that are addressed to `session`, in order.
pub open spec fn received_by(sent: Seq<OutboundView>, session: Seq<char>) -> Seq<ServerMessageView>
    decreases sent.len(),
{
    if sent.len() == 0 {
        Seq::empty()
    } else if sent.last().session_id == session {
        received_by(sent.drop_last(), session).push(sent.last().message)
    } else {
        received_by(sent.drop_last(), session)
    }
}

/// What a session receives of two batches is what it receives of the
/// first, then what it receives of the second.
pub proof fn lemma_received_by_add(a: Seq<OutboundView>, b: Seq<OutboundView>, session: Seq<char>)
    ensures
        received_by(a + b, session) == received_by(a, session) + received_by(b, session),
    decreases b.len(),
{
    if b.len() == 0 {
        assert(a + b =~= a);
        assert(received_by(a, session) + received_by(b, session) =~= received_by(a, session));
    } else {
        lemma_received_by_add(a, b.drop_last(), session);
        assert((a + b).drop_last() =~= a + b.drop_last());
        assert((a + b).last() == b.last());
        if b.last().session_id == session {
            assert(received_by(a, session) + received_by(b.drop_last(), session).push(
                b.last().message,
            ) =~= (received_by(a, session) + received_by(b.drop_last(), session)).push(
                b.last().message,
            ));
        }
    }
}

/// Of a message for one session, that session receives the message if it
/// is connected, and every other session receives nothing.
pub proof fn lemma_received_by_to_session(
    server: ServerView,
    target: Seq<char>,
    message: ServerMessageView,
    session: Seq<char>,
)
    ensures
        received_by(server.to_session(target, message), session) == if target == session
            && server.sessions.map.contains_key(target) {
            seq![message]
        } else {
            Seq::empty()
        },
{
    let sent = server.to_session(target, message);
    if server.sessions.map.contains_key(target) {
        assert(sent.drop_last() =~= Seq::empty());
        assert(received_by(sent.drop_last(), session) =~= Seq::empty());
        if target == session {
            assert(received_by(sent, session) =~= seq![message]);
        }
    }
}

/// What a player of a game receives when the game has changed: one
/// snapshot of the game in the player's colour and, if the game is over,
/// one notice of its end after it; nothing else.
pub proof fn lemma_game_change_fan_out(
    server: ServerView,
    game_id: Seq<char>,
    game: GameView,
    player: Seq<char>,
)
    requires
        game.has_player(player),
        game.black_player_id != game.white_player_id,
        server.sessions.map.contains_key(player),
    ensures
        received_by(server.game_changed(game_id, game).sent, player) == if game.is_game_over {
            seq![
                state_message(game.state(), game.color_of(player)->Some_0),
                ServerMessageView::GameOver {
                    winner: ServerView::winner_name(game, game.state()),
                    reason: GAME_COMPLETED@,
                },
            ]
        } else {
            seq![state_message(game.state(), game.color_of(player)->Some_0)]
        },
{
    let changed = ServerView {
        active_games: server.active_games.inserted(game_id, game),
        ..server
    };
    let black = changed.to_session(
        game.black_player_id,
        state_message(game.state(), DiskColor::Black),
    );
    let white = changed.to_session(
        game.white_player_id,
        state_message(game.state(), DiskColor::White),
    );
    lemma_received_by_to_session(
        changed,
        game.black_player_id,
        state_message(game.state(), DiskColor::Black),
        player,
    );
    lemma_received_by_to_session(
        changed,
        game.white_player_id,
        state_message(game.state(), DiskColor::White),
        player,
    );
    lemma_received_by_add(black, white, player);
    let shown = changed.state_for_players(game_id, game.state());
    assert(shown == black + white);
    assert(received_by(shown, player) =~= seq![
        state_message(game.state(), game.color_of(player)->Some_0),
    ]);
    if game.is_game_over {
        let over = ServerMessageView::GameOver {
            winner: ServerView::winner_name(game, game.state()),
            reason: GAME_COMPLETED@,
        };
        let to_black = changed.to_session(game.black_player_id, over);
        let to_white = changed.to_session(game.white_player_id, over);
        lemma_received_by_to_session(changed, game.black_player_id, over, player);
        lemma_received_by_to_session(changed, game.white_player_id, over, player);
        lemma_received_by_add(to_black, to_white, player);
        let step = changed.game_over(game_id, game.state());
        assert(step.sent == to_black + to_white);
        lemma_received_by_add(shown, step.sent, player);
        assert(received_by(step.sent, player) =~= seq![over]);
        assert(received_by(shown + step.sent, player) =~= seq![
            state_message(game.state(), game.color_of(player)->Some_0),
            over,
        ]);
    }
}

/// After a move that was accepted, each player of the game who is
/// connected has received exactly one snapshot of the game for that move
/// and, after it, at most one notice that the game is over.
pub proof fn lemma_move_fan_out(
    server: ServerView,
    session: Seq<char>,
    x: int,
    y: int,
    player: Seq<char>,
)
    requires
        server.inv(),
        server.moved(session, x, y).refused is None,
        server.active_games.map[server.user_games.map[session]].has_player(player),
        server.sessions.map.contains_key(player),
    ensures
        ({
            let game = server.active_games.map[server.user_games.map[session]].moved(session, x, y);
            let snapshot = state_message(game.state(), game.color_of(player)->Some_0);
            let received = received_by(server.moved(session, x, y).sent, player);
            &&& received.len() == if game.is_game_over { 2nat } else { 1nat }
            &&& received[0] == snapshot
            &&& game.is_game_over ==> received[1] is GameOver
        }),
{
    let game_id = server.user_games.map[session];
    let game = server.active_games.map[game_id].moved(session, x, y);
    lemma_game_change_fan_out(server, game_id, game, player);
}

/// After a resignation that was accepted, each player of the game who is
/// connected has received exactly one snapshot of the game and, after it,
/// one notice that the game is over.
pub proof fn lemma_resign_fan_out(server: ServerView, session: Seq<char>, player: Seq<char>)
    requires
        server.inv(),
        server.resigned(session).refused is None,
        server.active_games.map[server.user_games.map[session]].has_player(player),
        server.sessions.map.contains_key(player),
    ensures
        ({
            let game = server.active_games.map[server.user_games.map[session]].resigned(session);
            let snapshot = state_message(game.state(), game.color_of(player)->Some_0);
            let received = received_by(server.resigned(session).sent, player);
            &&& received.len() == 2
            &&& received[0] == snapshot
            &&& received[1] is GameOver
        }),
{
    let game_id = server.user_games.map[session];
    let game = server.active_games.map[game_id].resigned(session);
    lemma_game_change_fan_out(server, game_id, game, player);
}

/// Where the users are indexed, a user is listed exactly when some session
/// is connected under the user's name.
pub proof fn lemma_user_listed_iff_connected(server: ServerView, username: Seq<char>)
    requires
        server.users_indexed(),
    ensures
        server.users.map.contains_key(username) <==> exists|s: Seq<char>| #[trigger]
            server.sessions.map.contains_key(s) && server.sessions.map[s] == username,
{
    if server.users.map.contains_key(username) {
        let s = server.users.map[username];
        assert(server.sessions.map.contains_key(s) && server.sessions.map[s] == username);
    }
}

/// The events that leave the invariants intact: every session that
/// announces itself or takes leave, every request of a client, and every
/// tick whose new matches pair the queue off under ids that are new, that
/// is, ids of no running game and different from one another.
pub open spec fn in_order(
    server: ServerView,
    event: ServerEventView,
    made: Seq<PendingMatchView>,
) -> bool {
    match event {
        ServerEventView::Connect { .. } => true,
        ServerEventView::Disconnect { .. } => true,
        ServerEventView::ClientMessage { .. } => true,
        ServerEventView::RunMatchmaking => {
            &&& server.matchmaking.pairs_off(made)
            &&& forall|i: int|
                0 <= i < made.len() ==> !server.active_games.map.contains_key(
                    (#[trigger] made[i]).match_id,
                )
            &&& forall|i: int, j: int|
                0 <= i < j < made.len() ==> (#[trigger] made[i]).match_id != (
                #[trigger] made[j]).match_id
        },
    }
}

/// After every event of the coordinator that is in order, the invariants
/// hold again: every session that is listed with a game is a player of
/// that game and the game is running; a user is listed exactly with the
/// session that is connected under the user's name; no session both waits
/// and plays; the two players of a game differ; and no match is pending.
pub proof fn lemma_event_keeps_inv(
    server: ServerView,
    event: ServerEventView,
    made: Seq<PendingMatchView>,
    now: u64,
)
    requires
        server.wf(),
        server.inv(),
        in_order(server, event, made),
    ensures
        server.handled(event, made, now).server.inv(),
{
    match event {
        ServerEventView::Connect { session_id, username } => {
            lemma_connect_keeps_inv(server, session_id, username);
        },
        ServerEventView::Disconnect { session_id } => {
            lemma_disconnect_keeps_inv(server, session_id);
        },
        ServerEventView::ClientMessage { session_id, message } => {
            lemma_request_keeps_inv(server, session_id, message, now);
        },
        ServerEventView::RunMatchmaking => {
            lemma_tick_keeps_inv(server, made, now);
        },
    }
}

/// A session that announces itself leaves the coordinator well formed.
pub proof fn lemma_connect_keeps_wf(server: ServerView, session: Seq<char>, username: Seq<char>)
    requires
        server.wf(),
    ensures
        server.connected(session, username).server.wf(),
{
    match server.holder_of(session, username) {
        Some(former) => {
            server.sessions.lemma_removed_wf(former);
            server.sessions.removed(former).lemma_inserted_wf(session, username);
        },
        None => {
            server.sessions.lemma_inserted_wf(session, username);
        },
    }
    match server.former_name_of(session, username) {
        Some(name) => {
            server.users.lemma_removed_wf(name);
            server.users.removed(name).lemma_inserted_wf(username, session);
        },
        None => {
            server.users.lemma_inserted_wf(username, session);
        },
    }
}

/// Ending the game of a session that is gone leaves the coordinator well
/// formed.
pub proof fn lemma_abandon_keeps_wf(server: ServerView, session: Seq<char>)
    requires
        server.wf(),
    ensures
        server.abandoned(session).server.wf(),
{
    match server.user_games.get(session) {
        Some(game_id) => match server.active_games.get(game_id) {
            Some(game) => {
                let opponent = ServerView::opponent_of(game, session);
                server.user_statuses.lemma_inserted_wf(opponent, UserStatus::Idle);
                server.user_games.lemma_removed_wf(opponent);
                server.user_games.removed(opponent).lemma_removed_wf(session);
                server.active_games.lemma_removed_wf(game_id);
            },
            None => {
                server.user_games.lemma_removed_wf(session);
            },
        },
        None => {},
    }
}

/// A session that takes leave leaves the coordinator well formed.
pub proof fn lemma_disconnect_keeps_wf(server: ServerView, session: Seq<char>)
    requires
        server.wf(),
    ensures
        server.disconnected(session).server.wf(),
{
    match server.sessions.get(session) {
        Some(username) => {
            server.sessions.lemma_removed_wf(session);
            server.users.lemma_removed_wf(username);
            server.user_statuses.lemma_removed_wf(session);
            lemma_dequeued_wf(server.matchmaking, session);
            let parted = ServerView {
                sessions: server.sessions.removed(session),
                users: server.users.removed(username),
                user_statuses: server.user_statuses.removed(session),
                matchmaking: server.matchmaking.dequeued(session),
                ..server
            };
            lemma_abandon_keeps_wf(parted, session);
        },
        None => {},
    }
}

/// Ending a game leaves the coordinator well formed.
pub proof fn lemma_game_over_keeps_wf(server: ServerView, game_id: Seq<char>, state: GameStateView)
    requires
        server.wf(),
    ensures
        server.game_over(game_id, state).server.wf(),
{
    match server.active_games.get(game_id) {
        Some(game) => {
            server.user_statuses.lemma_inserted_wf(game.black_player_id, UserStatus::Idle);
            server.user_statuses.inserted(game.black_player_id, UserStatus::Idle).lemma_inserted_wf(
                game.white_player_id,
                UserStatus::Idle,
            );
            server.user_games.lemma_removed_wf(game.black_player_id);
            server.user_games.removed(game.black_player_id).lemma_removed_wf(game.white_player_id);
            server.active_games.lemma_removed_wf(game_id);
        },
        None => {},
    }
}

/// A game that has changed to one with a well-formed board leaves the
/// coordinator well formed.
pub proof fn lemma_game_change_keeps_wf(server: ServerView, game_id: Seq<char>, game: GameView)
    requires
        server.wf(),
        well_formed(game.board),
    ensures
        server.game_changed(game_id, game).server.wf(),
{
    server.active_games.lemma_inserted_wf(game_id, game);
    let changed = ServerView {
        active_games: server.active_games.inserted(game_id, game),
        ..server
    };
    assert(changed.wf());
    lemma_game_over_keeps_wf(changed, game_id, game.state());
}

/// A request of a client leaves the coordinator well formed.
pub proof fn lemma_request_keeps_wf(
    server: ServerView,
    session: Seq<char>,
    message: ClientMessageView,
    now: u64,
)
    requires
        server.wf(),
    ensures
        server.requested(session, message, now).server.wf(),
{
    match message {
        ClientMessageView::JoinQueue => {
            if server.sessions.map.contains_key(session) {
                lemma_enqueued_wf(
                    server.matchmaking,
                    session,
                    server.sessions.map[session],
                    DEFAULT_RATING,
                    now,
                );
                server.user_statuses.lemma_inserted_wf(session, UserStatus::SearchingMatch);
            }
        },
        ClientMessageView::LeaveQueue => {
            lemma_dequeued_wf(server.matchmaking, session);
            server.user_statuses.lemma_inserted_wf(session, UserStatus::Idle);
        },
        ClientMessageView::MakeMove { x, y } => {
            if server.moved(session, x as int, y as int).refused is None {
                let game_id = server.user_games.map[session];
                let game = server.active_games.map[game_id];
                lemma_game_change_keeps_wf(server, game_id, game.moved(session, x as int, y as int));
            }
        },
        ClientMessageView::Resign => {
            if server.resigned(session).refused is None {
                let game_id = server.user_games.map[session];
                let game = server.active_games.map[game_id];
                lemma_game_change_keeps_wf(server, game_id, game.resigned(session));
            }
        },
        _ => {},
    }
}

/// Starting the games of new matches leaves the coordinator well formed.
pub proof fn lemma_games_started_keep_wf(server: ServerView, made: Seq<PendingMatchView>)
    requires
        server.wf(),
    ensures
        server.games_started(made).server.wf(),
    decreases made.len(),
{
    if made.len() > 0 {
        lemma_games_started_keep_wf(server, made.drop_last());
        let before = server.games_started(made.drop_last()).server;
        let last = made.last();
        let game = GameView::fresh(
            last.match_id,
            last.player1_id,
            last.player1_name,
            last.player2_id,
            last.player2_name,
        );
        before.active_games.lemma_inserted_wf(last.match_id, game);
        before.user_games.lemma_inserted_wf(last.player1_id, last.match_id);
        before.user_games.inserted(last.player1_id, last.match_id).lemma_inserted_wf(
            last.player2_id,
            last.match_id,
        );
        before.user_statuses.lemma_inserted_wf(last.player1_id, UserStatus::InGame);
        before.user_statuses.inserted(last.player1_id, UserStatus::InGame).lemma_inserted_wf(
            last.player2_id,
            UserStatus::InGame,
        );
        lemma_cancelled_wf(before.matchmaking, last.match_id);
    }
}

/// Giving matches up leaves the coordinator well formed.
pub proof fn lemma_matches_expired_keep_wf(server: ServerView, gone: Seq<PendingMatchView>)
    requires
        server.wf(),
    ensures
        server.matches_expired(gone).server.wf(),
    decreases gone.len(),
{
    if gone.len() > 0 {
        lemma_matches_expired_keep_wf(server, gone.drop_last());
        let before = server.matches_expired(gone.drop_last()).server;
        let last = gone.last();
        before.user_statuses.lemma_inserted_wf(last.player1_id, UserStatus::Idle);
        before.user_statuses.inserted(last.player1_id, UserStatus::Idle).lemma_inserted_wf(
            last.player2_id,
            UserStatus::Idle,
        );
    }
}

/// A tick of the matchmaking timer leaves the coordinator well formed.
pub proof fn lemma_tick_keeps_wf(server: ServerView, made: Seq<PendingMatchView>, now: u64)
    requires
        server.wf(),
        server.matchmaking.pairs_off(made),
    ensures
        server.ticked(made, now).server.wf(),
{
    lemma_paired_all_queue(server.matchmaking, made);
    let paired = ServerView { matchmaking: server.matchmaking.paired_all(made), ..server };
    lemma_games_started_keep_wf(paired, made);
    let started = paired.games_started(made).server;
    lemma_cleaned_wf(started.matchmaking, MATCH_TIMEOUT_MS, now);
    let cleaned = ServerView {
        matchmaking: started.matchmaking.cleaned(MATCH_TIMEOUT_MS, now),
        ..started
    };
    lemma_matches_expired_keep_wf(cleaned, started.matchmaking.expired(MATCH_TIMEOUT_MS, now));
}

/// Every event leaves the coordinator well formed.
pub proof fn lemma_event_keeps_wf(
    server: ServerView,
    event: ServerEventView,
    made: Seq<PendingMatchView>,
    now: u64,
)
    requires
        server.wf(),
        event is RunMatchmaking ==> server.matchmaking.pairs_off(made),
    ensures
        server.handled(event, made, now).server.wf(),
{
    match event {
        ServerEventView::Connect { session_id, username } => {
            lemma_connect_keeps_wf(server, session_id, username);
        },
        ServerEventView::Disconnect { session_id } => {
            lemma_disconnect_keeps_wf(server, session_id);
        },
        ServerEventView::ClientMessage { session_id, message } => {
            lemma_request_keeps_wf(server, session_id, message, now);
        },
        ServerEventView::RunMatchmaking => {
            lemma_tick_keeps_wf(server, made, now);
        },
    }
}

/// An event together with what the outside adds to it: the matches that a
/// tick pairs and the reading of the clock.
pub struct Occurrence {
    pub event: ServerEventView,
    pub made: Seq<PendingMatchView>,
    pub now: u64,
}

/// The coordinator after a run of events, starting from the one that knows
/// nobody.
pub open spec fn after_run(run: Seq<Occurrence>) -> ServerView
    decreases run.len(),
{
    if run.len() == 0 {
        ServerView::empty()
    } else {
        after_run(run.drop_last()).handled(run.last().event, run.last().made, run.last().now).server
    }
}

/// Every event of the run is in order for the coordinator that it meets.
pub open spec fn run_in_order(run: Seq<Occurrence>) -> bool
    decreases run.len(),
{
    run.len() > 0 ==> run_in_order(run.drop_last()) && in_order(
        after_run(run.drop_last()),
        run.last().event,
        run.last().made,
    )
}

/// After every event of a run that is in order, the coordinator is well
/// formed and the invariants hold.
pub proof fn lemma_inv_after_run(run: Seq<Occurrence>)
    requires
        run_in_order(run),
    ensures
        after_run(run).wf(),
        after_run(run).inv(),
    decreases run.len(),
{
    if run.len() > 0 {
        lemma_inv_after_run(run.drop_last());
        let before = after_run(run.drop_last());
        lemma_event_keeps_wf(before, run.last().event, run.last().made, run.last().now);
        lemma_event_keeps_inv(before, run.last().event, run.last().made, run.last().now);
    }
}

/// The matches that are pending after the games of new matches have
/// started are those that were pending before, but for the new matches.
pub proof fn lemma_games_started_retire(server: ServerView, made: Seq<PendingMatchView>)
    ensures
        forall|k: Seq<char>|
            #[trigger] server.games_started(made).server.matchmaking.pending.map.contains_key(k)
                ==> server.matchmaking.pending.map.contains_key(k) && forall|i: int|
                0 <= i < made.len() ==> (#[trigger] made[i]).match_id != k,
    decreases made.len(),
{
    if made.len() > 0 {
        let shorter = made.drop_last();
        lemma_games_started_retire(server, shorter);
        let before = server.games_started(shorter).server;
        let after = server.games_started(made).server;
        assert(after.matchmaking == before.matchmaking.cancelled(made.last().match_id));
        assert forall|k: Seq<char>|
            #[trigger] after.matchmaking.pending.map.contains_key(
                k,
            ) implies server.matchmaking.pending.map.contains_key(k) && forall|i: int|
            0 <= i < made.len() ==> (#[trigger] made[i]).match_id != k by {
            assert(before.matchmaking.pending.map.contains_key(k));
            assert forall|i: int| 0 <= i < made.len() implies (#[trigger] made[i]).match_id
                != k by {
                if i < shorter.len() {
                    assert(shorter[i] == made[i]);
                }
            }
        }
    }
}

/// After a tick of the matchmaking timer on a coordinator without a
/// pending match, no match is pending: the new matches have become games.
pub proof fn lemma_tick_leaves_none_pending(
    server: ServerView,
    made: Seq<PendingMatchView>,
    now: u64,
)
    requires
        server.none_pending(),
    ensures
        server.ticked(made, now).server.none_pending(),
{
    let paired = ServerView { matchmaking: server.matchmaking.paired_all(made), ..server };
    lemma_paired_all_pending(server.matchmaking, made);
    lemma_games_started_retire(paired, made);
    let started = paired.games_started(made).server;
    assert(started.none_pending()) by {
        assert forall|k: Seq<char>| !#[trigger] started.matchmaking.pending.map.contains_key(
            k,
        ) by {
            if started.matchmaking.pending.map.contains_key(k) {
                assert(paired.matchmaking.pending.map.contains_key(k));
                let i = choose|i: int| 0 <= i < made.len() && (#[trigger] made[i]).match_id == k;
                assert(made[i].match_id != k);
            }
        }
    }
    let cleaned = ServerView {
        matchmaking: started.matchmaking.cleaned(MATCH_TIMEOUT_MS, now),
        ..started
    };
    lemma_matches_expired_touch_statuses(
        cleaned,
        started.matchmaking.expired(MATCH_TIMEOUT_MS, now),
    );
}

/// A tick of the matchmaking timer on a well-formed coordinator without a
/// pending match gives no match up: nobody is told of a timeout, and the
/// tick sends what the starting of the new games sends and leaves every
/// status as the starting of the games has left it. The players of a
/// running game stay in their game.
pub proof fn lemma_tick_gives_nothing_up(server: ServerView, made: Seq<PendingMatchView>, now: u64)
    requires
        server.wf(),
        server.none_pending(),
        server.matchmaking.pairs_off(made),
    ensures
        ({
            let paired = ServerView { matchmaking: server.matchmaking.paired_all(made), ..server };
            let started = paired.games_started(made);
            &&& started.server.matchmaking.expired(MATCH_TIMEOUT_MS, now).len() == 0
            &&& server.ticked(made, now).sent == started.sent
            &&& server.ticked(made, now).server.user_statuses == started.server.user_statuses
            &&& server.ticked(made, now).server.active_games == started.server.active_games
            &&& server.ticked(made, now).server.user_games == started.server.user_games
        }),
{
    let paired = ServerView { matchmaking: server.matchmaking.paired_all(made), ..server };
    lemma_paired_all_queue(server.matchmaking, made);
    lemma_paired_all_pending(server.matchmaking, made);
    lemma_games_started_retire(paired, made);
    lemma_games_started_keep_wf(paired, made);
    let started = paired.games_started(made);
    let pending = started.server.matchmaking.pending;
    assert(pending.order.len() == 0) by {
        if pending.order.len() > 0 {
            let k = pending.order[0];
            assert(pending.order.contains(k));
            assert(pending.map.contains_key(k));
            assert(paired.matchmaking.pending.map.contains_key(k));
            let i = choose|i: int| 0 <= i < made.len() && (#[trigger] made[i]).match_id == k;
            assert(made[i].match_id != k);
        }
    }
    reveal(Seq::filter);
    let gone = started.server.matchmaking.expired(MATCH_TIMEOUT_MS, now);
    assert(started.server.matchmaking.expired_ids(MATCH_TIMEOUT_MS, now).len() == 0);
    assert(gone.len() == 0);
    assert(started.sent + Seq::<OutboundView>::empty() =~= started.sent);
}

/// The game that a match becomes: the first player has the black disks,
/// the second the white ones, from the starting position, black to move.
pub open spec fn game_of_match(made: PendingMatchView) -> GameView {
    GameView::fresh(
        made.match_id,
        made.player1_id,
        made.player1_name,
        made.player2_id,
        made.player2_name,
    )
}

/// After the games of new matches have started, each of the matches is a
/// running game, both its players are listed with it and stand in the
/// game; where the ids of the matches differ and no player stands in two
/// of them.
pub proof fn lemma_games_started_listed(server: ServerView, made: Seq<PendingMatchView>, i: int)
    requires
        0 <= i < made.len(),
        forall|a: int, b: int|
            0 <= a < b < made.len() ==> (#[trigger] made[a]).match_id != (
            #[trigger] made[b]).match_id,
        forall|a: int, b: int|
            0 <= a < made.len() && 0 <= b < made.len() && a != b ==> !(#[trigger] made[a]).mentions(
                (#[trigger] made[b]).player1_id,
            ) && !made[a].mentions(made[b].player2_id),
    ensures
        ({
            let after = server.games_started(made).server;
            &&& after.active_games.get(made[i].match_id) == Some(game_of_match(made[i]))
            &&& after.user_games.get(made[i].player1_id) == Some(made[i].match_id)
            &&& after.user_games.get(made[i].player2_id) == Some(made[i].match_id)
            &&& after.user_statuses.get(made[i].player1_id) == Some(UserStatus::InGame)
            &&& after.user_statuses.get(made[i].player2_id) == Some(UserStatus::InGame)
        }),
    decreases made.len(),
{
    let shorter = made.drop_last();
    let last = made.last();
    let before = server.games_started(shorter).server;
    assert(server.games_started(made).server == before.game_started(last).server);
    if i < made.len() - 1 {
        assert forall|a: int| 0 <= a < shorter.len() implies (#[trigger] shorter[a]) == made[a] by {}
        lemma_games_started_listed(server, shorter, i);
        assert(made[i].match_id != made[made.len() - 1].match_id);
        assert(!made[made.len() - 1].mentions(made[i].player1_id));
        assert(!made[made.len() - 1].mentions(made[i].player2_id));
    }
}

/// After a tick of the matchmaking timer, each match that the tick has
/// made is a running game from the starting position, the first of the
/// pair playing black and the second white; both are listed with the game
/// and stand in it. This holds where the ids of the new matches differ
/// from one another.
pub proof fn lemma_tick_starts_games(
    server: ServerView,
    made: Seq<PendingMatchView>,
    now: u64,
    i: int,
)
    requires
        server.wf(),
        server.none_pending(),
        server.matchmaking.pairs_off(made),
        forall|a: int, b: int|
            0 <= a < b < made.len() ==> (#[trigger] made[a]).match_id != (
            #[trigger] made[b]).match_id,
        0 <= i < made.len(),
    ensures
        ({
            let after = server.ticked(made, now).server;
            let game = after.active_games.map[made[i].match_id];
            &&& made[i].player1_id == server.matchmaking.queue.order[2 * i]
            &&& made[i].player2_id == server.matchmaking.queue.order[2 * i + 1]
            &&& after.active_games.get(made[i].match_id) == Some(game_of_match(made[i]))
            &&& game.black_player_id == made[i].player1_id
            &&& game.white_player_id == made[i].player2_id
            &&& game.current_color == DiskColor::Black
            &&& !game.is_game_over
            &&& after.user_games.get(made[i].player1_id) == Some(made[i].match_id)
            &&& after.user_games.get(made[i].player2_id) == Some(made[i].match_id)
            &&& after.user_statuses.get(made[i].player1_id) == Some(UserStatus::InGame)
            &&& after.user_statuses.get(made[i].player2_id) == Some(UserStatus::InGame)
        }),
{
    lemma_pairs_off_players(server.matchmaking, made);
    let paired = ServerView { matchmaking: server.matchmaking.paired_all(made), ..server };
    lemma_games_started_listed(paired, made, i);
    lemma_tick_gives_nothing_up(server, made, now);
}

/// A session that takes leave is forgotten: it is no session, its name no
/// user, it has no status, waits in no queue and plays no game any more.
/// Of every other session and every other user the listing is as before.
pub proof fn lemma_disconnect_forgets(server: ServerView, session: Seq<char>)
    requires
        server.wf(),
        server.inv(),
        server.sessions.map.contains_key(session),
    ensures
        ({
            let after = server.disconnected(session).server;
            let username = server.sessions.map[session];
            &&& !after.sessions.map.contains_key(session)
            &&& !after.users.map.contains_key(username)
            &&& !after.user_statuses.map.contains_key(session)
            &&& !after.matchmaking.in_queue(session)
            &&& !after.user_games.map.contains_key(session)
            &&& forall|s: Seq<char>|
                s != session ==> #[trigger] after.sessions.get(s) == server.sessions.get(s)
            &&& forall|u: Seq<char>|
                u != username ==> #[trigger] after.users.get(u) == server.users.get(u)
        }),
{
    let username = server.sessions.map[session];
    let parted = ServerView {
        sessions: server.sessions.removed(session),
        users: server.users.removed(username),
        user_statuses: server.user_statuses.removed(session),
        matchmaking: server.matchmaking.dequeued(session),
        ..server
    };
    if server.user_games.map.contains_key(session) {
        let game_id = server.user_games.map[session];
        assert(server.active_games.map.contains_key(game_id));
        let game = server.active_games.map[game_id];
        assert(game.has_player(session));
        assert(ServerView::opponent_of(game, session) != session);
    }
}

/// After a session has announced itself under a name, the name is listed
/// with the session and the session with the name, whatever either was
/// listed with before.
pub proof fn lemma_connect_lists(server: ServerView, session: Seq<char>, username: Seq<char>)
    ensures
        server.connected(session, username).server.users.get(username) == Some(session),
        server.connected(session, username).server.sessions.get(session) == Some(username),
{
}

/// Of a game that has changed, a session that is not one of its players
/// receives nothing.
pub proof fn lemma_game_change_players_only(
    server: ServerView,
    game_id: Seq<char>,
    game: GameView,
    other: Seq<char>,
)
    requires
        !game.has_player(other),
    ensures
        received_by(server.game_changed(game_id, game).sent, other) == Seq::<
            ServerMessageView,
        >::empty(),
{
    let changed = ServerView {
        active_games: server.active_games.inserted(game_id, game),
        ..server
    };
    let black_state = state_message(game.state(), DiskColor::Black);
    let white_state = state_message(game.state(), DiskColor::White);
    let black = changed.to_session(game.black_player_id, black_state);
    let white = changed.to_session(game.white_player_id, white_state);
    lemma_received_by_to_session(changed, game.black_player_id, black_state, other);
    lemma_received_by_to_session(changed, game.white_player_id, white_state, other);
    lemma_received_by_add(black, white, other);
    let shown = changed.state_for_players(game_id, game.state());
    assert(shown == black + white);
    assert(received_by(shown, other) =~= Seq::empty());
    if game.is_game_over {
        let over = ServerMessageView::GameOver {
            winner: ServerView::winner_name(game, game.state()),
            reason: GAME_COMPLETED@,
        };
        let to_black = changed.to_session(game.black_player_id, over);
        let to_white = changed.to_session(game.white_player_id, over);
        lemma_received_by_to_session(changed, game.black_player_id, over, other);
        lemma_received_by_to_session(changed, game.white_player_id, over, other);
        lemma_received_by_add(to_black, to_white, other);
        let step = changed.game_over(game_id, game.state());
        assert(step.sent == to_black + to_white);
        lemma_received_by_add(shown, step.sent, other);
        assert(received_by(shown + step.sent, other) =~= Seq::empty());
    }
}

/// After a move or a resignation that was accepted, a session that is not
/// a player of the game has received nothing.
pub proof fn lemma_fan_out_players_only(
    server: ServerView,
    session: Seq<char>,
    x: int,
    y: int,
    other: Seq<char>,
)
    requires
        server.user_games.map.contains_key(session),
        !server.active_games.map[server.user_games.map[session]].has_player(other),
    ensures
        server.moved(session, x, y).refused is None ==> received_by(
            server.moved(session, x, y).sent,
            other,
        ) == Seq::<ServerMessageView>::empty(),
        server.resigned(session).refused is None ==> received_by(
            server.resigned(session).sent,
            other,
        ) == Seq::<ServerMessageView>::empty(),
{
    let game_id = server.user_games.map[session];
    let game = server.active_games.map[game_id];
    if server.moved(session, x, y).refused is None {
        lemma_game_change_players_only(server, game_id, game.moved(session, x, y), other);
    }
    if server.resigned(session).refused is None {
        lemma_game_change_players_only(server, game_id, game.resigned(session), other);
    }
}

} // verus!
