//! The matchmaking service: a first-in first-out queue of waiting players,
//! and the matches that were made of them and not yet given up.
//!
//! Times are readings of a monotonic clock in milliseconds. Every operation
//! that needs the present time exists twice: with the reading as an
//! argument, and reading the service's own clock.

use crate::clock::Clock;
use crate::ident::new_uuid;
use crate::registry::{Registry, RegistryView};
use crate::sequences::{lemma_filter_members, lemma_filter_step};
use crate::text::str_eq;
use vstd::prelude::*;

verus! {

/// A player who waits in the queue.
#[derive(Debug, PartialEq, Eq)]
pub struct QueueEntry {
    pub user_id: String,
    pub username: String,
    pub rating: u32,
    /// When the player joined, in milliseconds of the service's clock.
    pub joined_at: u64,
}

/// The model of a [`QueueEntry`].
pub struct QueueEntryView {
    pub user_id: Seq<char>,
    pub username: Seq<char>,
    pub rating: u32,
    pub joined_at: u64,
}

impl View for QueueEntry {
    type V = QueueEntryView;

    open spec fn view(&self) -> QueueEntryView {
        QueueEntryView {
            user_id: self.user_id@,
            username: self.username@,
            rating: self.rating,
            joined_at: self.joined_at,
        }
    }
}

impl Clone for QueueEntry {
    fn clone(&self) -> (copy: Self)
        ensures
            copy@ == self@,
    {
        QueueEntry {
            user_id: self.user_id.clone(),
            username: self.username.clone(),
            rating: self.rating,
            joined_at: self.joined_at,
        }
    }
}

/// Two players who were paired.
#[derive(Debug, PartialEq, Eq)]
pub struct PendingMatch {
    pub match_id: String,
    pub player1_id: String,
    pub player1_name: String,
    pub player2_id: String,
    pub player2_name: String,
    /// When the pair was made, in milliseconds of the service's clock.
    pub created_at: u64,
    pub player1_ready: bool,
    pub player2_ready: bool,
}

/// The model of a [`PendingMatch`].
pub struct PendingMatchView {
    pub match_id: Seq<char>,
    pub player1_id: Seq<char>,
    pub player1_name: Seq<char>,
    pub player2_id: Seq<char>,
    pub player2_name: Seq<char>,
    pub created_at: u64,
    pub player1_ready: bool,
    pub player2_ready: bool,
}

impl PendingMatchView {
    /// Whether `user` is one of the two players.
    pub open spec fn mentions(self, user: Seq<char>) -> bool {
        self.player1_id == user || self.player2_id == user
    }

    /// Whether more than `timeout` milliseconds lie between the making of
    /// the match and `now`.
    pub open spec fn expired(self, timeout: u64, now: u64) -> bool {
        now - self.created_at > timeout
    }

    /// The match of the two queue entries, made at `now` under `match_id`,
    /// neither player ready.
    pub open spec fn of(
        match_id: Seq<char>,
        first: QueueEntryView,
        second: QueueEntryView,
        now: u64,
    ) -> PendingMatchView {
        PendingMatchView {
            match_id,
            player1_id: first.user_id,
            player1_name: first.username,
            player2_id: second.user_id,
            player2_name: second.username,
            created_at: now,
            player1_ready: false,
            player2_ready: false,
        }
    }

    /// The match after `user` has declared themselves ready; unchanged when
    /// `user` is neither player.
    pub open spec fn readied(self, user: Seq<char>) -> PendingMatchView {
        if self.player1_id == user {
            PendingMatchView { player1_ready: true, ..self }
        } else if self.player2_id == user {
            PendingMatchView { player2_ready: true, ..self }
        } else {
            self
        }
    }
}

impl View for PendingMatch {
    type V = PendingMatchView;

    open spec fn view(&self) -> PendingMatchView {
        PendingMatchView {
            match_id: self.match_id@,
            player1_id: self.player1_id@,
            player1_name: self.player1_name@,
            player2_id: self.player2_id@,
            player2_name: self.player2_name@,
            created_at: self.created_at,
            player1_ready: self.player1_ready,
            player2_ready: self.player2_ready,
        }
    }
}

impl Clone for PendingMatch {
    fn clone(&self) -> (copy: Self)
        ensures
            copy@ == self@,
    {
        PendingMatch {
            match_id: self.match_id.clone(),
            player1_id: self.player1_id.clone(),
            player1_name: self.player1_name.clone(),
            player2_id: self.player2_id.clone(),
            player2_name: self.player2_name.clone(),
            created_at: self.created_at,
            player1_ready: self.player1_ready,
            player2_ready: self.player2_ready,
        }
    }
}

/// The models of a sequence of matches.
pub open spec fn match_views(matches: Seq<PendingMatch>) -> Seq<PendingMatchView> {
    matches.map_values(|m: PendingMatch| m@)
}

/// The model of a [`MatchmakingService`]: the queue, oldest entry first and
/// keyed by user id, and the pending matches keyed by match id.
pub struct MatchmakingView {
    pub queue: RegistryView<QueueEntryView>,
    pub pending: RegistryView<PendingMatchView>,
}

impl MatchmakingView {
    /// Both tables are well formed and each entry stands under its own id.
    pub open spec fn wf(self) -> bool {
        &&& self.queue.wf()
        &&& self.pending.wf()
        &&& forall|k: Seq<char>|
            self.queue.map.contains_key(k) ==> (#[trigger] self.queue.map[k]).user_id == k
        &&& forall|k: Seq<char>|
            self.pending.map.contains_key(k) ==> (#[trigger] self.pending.map[k]).match_id == k
    }

    /// The service with nobody waiting and no match pending.
    pub open spec fn empty() -> Self {
        MatchmakingView { queue: RegistryView::empty(), pending: RegistryView::empty() }
    }

    /// Whether `user` waits in the queue.
    pub open spec fn in_queue(self, user: Seq<char>) -> bool {
        self.queue.contains_key(user)
    }

    /// The service after `user` has joined at `now`; unchanged when they
    /// wait already.
    pub open spec fn enqueued(self, user: Seq<char>, name: Seq<char>, rating: u32, now: u64) -> Self {
        if self.in_queue(user) {
            self
        } else {
            MatchmakingView {
                queue: self.queue.inserted(
                    user,
                    QueueEntryView { user_id: user, username: name, rating, joined_at: now },
                ),
                ..self
            }
        }
    }

    /// The service after `user` has left the queue.
    pub open spec fn dequeued(self, user: Seq<char>) -> Self {
        MatchmakingView { queue: self.queue.removed(user), ..self }
    }

    /// The match that pairing the two oldest entries at `now` makes.
    pub open spec fn next_match(self, match_id: Seq<char>, now: u64) -> PendingMatchView {
        PendingMatchView::of(match_id, self.queue.value_at(0), self.queue.value_at(1), now)
    }

    /// The service after its two oldest entries were paired at `now` under
    /// `match_id`: both have left the queue and their match is pending.
    pub open spec fn paired(self, match_id: Seq<char>, now: u64) -> Self {
        MatchmakingView {
            queue: self.queue.removed(self.queue.order[0]).removed(self.queue.order[1]),
            pending: self.pending.inserted(match_id, self.next_match(match_id, now)),
        }
    }

    /// The service after the given matches were made, one after the other,
    /// each of the two entries then oldest.
    pub open spec fn paired_all(self, made: Seq<PendingMatchView>) -> Self
        decreases made.len(),
    {
        if made.len() == 0 {
            self
        } else {
            self.paired_all(made.drop_last()).paired(made.last().match_id, made.last().created_at)
        }
    }

    /// The given matches are the ones that pairing the queue off makes: one
    /// for each two entries, oldest first, as long as two are left.
    pub open spec fn pairs_off(self, made: Seq<PendingMatchView>) -> bool {
        &&& made.len() == self.queue.len() / 2
        &&& forall|i: int|
            0 <= i < made.len() ==> #[trigger] made[i] == PendingMatchView::of(
                made[i].match_id,
                self.queue.value_at(2 * i),
                self.queue.value_at(2 * i + 1),
                made[i].created_at,
            )
    }

    /// The service after `match_id` was cancelled.
    pub open spec fn cancelled(self, match_id: Seq<char>) -> Self {
        MatchmakingView { pending: self.pending.removed(match_id), ..self }
    }

    /// The service after `user` has declared themselves ready for
    /// `match_id`; unchanged when there is no such match or `user` takes no
    /// part in it.
    pub open spec fn readied(self, match_id: Seq<char>, user: Seq<char>) -> Self {
        if self.pending.contains_key(match_id) {
            MatchmakingView {
                pending: self.pending.inserted(match_id, self.pending.map[match_id].readied(user)),
                ..self
            }
        } else {
            self
        }
    }

    /// What declaring `user` ready for `match_id` answers: whether both
    /// players are ready now, or nothing when there is no such match or
    /// `user` takes no part in it.
    pub open spec fn ready_answer(self, match_id: Seq<char>, user: Seq<char>) -> Option<bool> {
        if self.pending.contains_key(match_id) && self.pending.map[match_id].mentions(user) {
            let after = self.pending.map[match_id].readied(user);
            Some(after.player1_ready && after.player2_ready)
        } else {
            None
        }
    }

    /// The `i`-th pending match is the oldest that mentions `user`.
    pub open spec fn is_first_match_of(self, user: Seq<char>, i: int) -> bool {
        &&& 0 <= i < self.pending.len()
        &&& self.pending.value_at(i).mentions(user)
        &&& forall|j: int| 0 <= j < i ==> !(#[trigger] self.pending.value_at(j)).mentions(user)
    }

    /// No pending match mentions `user`.
    pub open spec fn has_no_match_of(self, user: Seq<char>) -> bool {
        forall|j: int|
            0 <= j < self.pending.len() ==> !(#[trigger] self.pending.value_at(j)).mentions(user)
    }

    /// The ids of the pending matches that have expired at `now`, oldest
    /// first.
    pub open spec fn expired_ids(self, timeout: u64, now: u64) -> Seq<Seq<char>> {
        self.pending.order.filter(|k: Seq<char>| self.pending.map[k].expired(timeout, now))
    }

    /// The pending matches that have expired at `now`, oldest first.
    pub open spec fn expired(self, timeout: u64, now: u64) -> Seq<PendingMatchView> {
        self.expired_ids(timeout, now).map_values(|k: Seq<char>| self.pending.map[k])
    }

    /// The service without the matches that have expired at `now`.
    pub open spec fn cleaned(self, timeout: u64, now: u64) -> Self {
        MatchmakingView {
            pending: RegistryView {
                order: self.pending.order.filter(
                    |k: Seq<char>| !self.pending.map[k].expired(timeout, now),
                ),
                map: Map::new(
                    |k: Seq<char>|
                        self.pending.map.contains_key(k) && !self.pending.map[k].expired(
                            timeout,
                            now,
                        ),
                    |k: Seq<char>| self.pending.map[k],
                ),
            },
            ..self
        }
    }

    /// The milliseconds that the first `n` entries of the queue have waited
    /// at `now`, added up; an entry that joined after `now` counts as zero.
    pub open spec fn waited(self, now: u64, n: int) -> int
        decreases n,
    {
        if n <= 0 {
            0
        } else {
            let joined = self.queue.value_at(n - 1).joined_at;
            self.waited(now, n - 1) + if now > joined {
                now - joined
            } else {
                0
            }
        }
    }

    /// The mean wait of the queue at `now` in whole milliseconds, rounded
    /// down; zero for an empty queue.
    pub open spec fn mean_wait(self, now: u64) -> int {
        if self.queue.len() == 0 {
            0
        } else {
            self.waited(now, self.queue.len() as int) / (self.queue.len() as int)
        }
    }
}

/// The matchmaking service.
pub struct MatchmakingService {
    queue: Registry<QueueEntry>,
    pending_matches: Registry<PendingMatch>,
    clock: Clock,
}

impl View for MatchmakingService {
    type V = MatchmakingView;

    closed spec fn view(&self) -> MatchmakingView {
        MatchmakingView { queue: self.queue@, pending: self.pending_matches@ }
    }
}

impl MatchmakingService {
    /// The service is well formed: its tables are sound and its model is
    /// well formed.
    pub closed spec fn wf(&self) -> bool {
        &&& self.queue.wf()
        &&& self.pending_matches.wf()
        &&& self@.wf()
    }

    /// A well-formed service has a well-formed model.
    pub proof fn lemma_view_wf(&self)
        requires
            self.wf(),
        ensures
            self@.wf(),
    {
    }

    /// A service with an empty queue and no pending match, its clock just
    /// started.
    pub fn new() -> (service: Self)
        ensures
            service.wf(),
            service@ == MatchmakingView::empty(),
    {
        MatchmakingService {
            queue: Registry::new(),
            pending_matches: Registry::new(),
            clock: Clock::start(),
        }
    }

    /// The number of players who wait in the queue.
    pub fn queue_len(&self) -> (n: usize)
        requires
            self.wf(),
        ensures
            n == self@.queue.len(),
    {
        self.queue.len()
    }

    /// Whether a player waits in the queue.
    pub fn is_queued(&self, user_id: &str) -> (waits: bool)
        requires
            self.wf(),
        ensures
            waits == self@.in_queue(user_id@),
    {
        self.queue.contains_key(user_id)
    }

    /// The number of pending matches.
    pub fn pending_len(&self) -> (n: usize)
        requires
            self.wf(),
        ensures
            n == self@.pending.len(),
    {
        self.pending_matches.len()
    }

    /// Puts a player who joins at `now` at the end of the queue. Answers
    /// `false`, and changes nothing, when the player waits already.
    pub fn add_to_queue_at(
        &mut self,
        user_id: String,
        username: String,
        rating: u32,
        now: u64,
    ) -> (added: bool)
        requires
            old(self).wf(),
        ensures
            final(self).wf(),
            added == !old(self)@.in_queue(user_id@),
            final(self)@ == old(self)@.enqueued(user_id@, username@, rating, now),
    {
        if self.queue.contains_key(user_id.as_str()) {
            return false;
        }
        let entry = QueueEntry { user_id: user_id.clone(), username, rating, joined_at: now };
        proof {
            self.queue@.lemma_inserted_wf(user_id@, entry@);
        }
        self.queue.insert(user_id, entry);
        true
    }

    /// Puts a player at the end of the queue, joined at the present reading
    /// of the service's clock. Answers `false`, and changes nothing, when
    /// the player waits already.
    pub fn add_to_queue(&mut self, user_id: String, username: String, rating: u32) -> (added: bool)
        requires
            old(self).wf(),
        ensures
            final(self).wf(),
            added == !old(self)@.in_queue(user_id@),
            exists|now: u64| final(self)@ == old(self)@.enqueued(user_id@, username@, rating, now),
    {
        let now = self.now();
        self.add_to_queue_at(user_id, username, rating, now)
    }

    /// Takes a player out of the queue. Answers `false`, and changes
    /// nothing, when the player does not wait.
    pub fn remove_from_queue(&mut self, user_id: &str) -> (removed: bool)
        requires
            old(self).wf(),
        ensures
            final(self).wf(),
            removed == old(self)@.in_queue(user_id@),
            final(self)@ == old(self)@.dequeued(user_id@),
            !removed ==> final(self)@ == old(self)@,
    {
        proof {
            self.queue@.lemma_removed_wf(user_id@);
        }
        self.queue.remove(user_id).is_some()
    }

    /// Pairs the two oldest entries of the queue at `now` under `match_id`
    /// and records their match as pending. Nothing is paired, and nothing
    /// changes, while fewer than two players wait.
    pub fn pair_next(&mut self, match_id: String, now: u64) -> (made: Option<PendingMatch>)
        requires
            old(self).wf(),
        ensures
            final(self).wf(),
            match made {
                Some(m) => old(self)@.queue.len() >= 2 && m@ == old(self)@.next_match(
                    match_id@,
                    now,
                ) && final(self)@ == old(self)@.paired(match_id@, now)
                    && final(self)@.queue.order == old(self)@.queue.order.skip(2),
                None => old(self)@.queue.len() < 2 && final(self)@ == old(self)@,
            },
    {
        if self.queue.len() < 2 {
            return None;
        }
        let ghost before = self@;
        proof {
            before.queue.lemma_removed_wf(before.queue.order[0]);
            before.queue.removed(before.queue.order[0]).lemma_removed_wf(before.queue.order[1]);
            assert(before.queue.order.contains(before.queue.order[0]));
            assert(before.queue.order.contains(before.queue.order[1]));
            assert(before.queue.order.skip(1)[0] == before.queue.order[1]);
        }
        let first = match self.queue.pop_front() {
            Some((_, entry)) => entry,
            None => {
                return None;
            },
        };
        let second = match self.queue.pop_front() {
            Some((_, entry)) => entry,
            None => {
                return None;
            },
        };
        let new_match = PendingMatch {
            match_id: match_id.clone(),
            player1_id: first.user_id,
            player1_name: first.username,
            player2_id: second.user_id,
            player2_name: second.username,
            created_at: now,
            player1_ready: false,
            player2_ready: false,
        };
        proof {
            before.pending.lemma_inserted_wf(match_id@, new_match@);
        }
        self.pending_matches.insert(match_id, new_match.clone());
        assert(self@.queue.order =~= before.queue.order.skip(2));
        Some(new_match)
    }

    /// Sets the ready flag of `user_id` in the match `match_id` and answers
    /// whether both players are ready now. Answers nothing, and changes
    /// nothing, when there is no such match or the user takes no part in
    /// it.
    pub fn set_player_ready(&mut self, match_id: &str, user_id: &str) -> (both_ready: Option<bool>)
        requires
            old(self).wf(),
        ensures
            final(self).wf(),
            both_ready == old(self)@.ready_answer(match_id@, user_id@),
            final(self)@ == old(self)@.readied(match_id@, user_id@),
    {
        let ghost before = self@;
        proof {
            if before.pending.contains_key(match_id@) {
                before.pending.lemma_inserted_wf(
                    match_id@,
                    before.pending.map[match_id@].readied(user_id@),
                );
                assert(before.pending.inserted(match_id@, before.pending.map[match_id@]).map
                    =~= before.pending.map);
            }
        }
        match self.pending_matches.get_mut(match_id) {
            Some(pending_match) => {
                if str_eq(pending_match.player1_id.as_str(), user_id) {
                    pending_match.player1_ready = true;
                } else if str_eq(pending_match.player2_id.as_str(), user_id) {
                    pending_match.player2_ready = true;
                } else {
                    return None;
                }
                Some(pending_match.player1_ready && pending_match.player2_ready)
            },
            None => None,
        }
    }

    /// Removes the match `match_id` from the pending matches and hands it
    /// back, if there is one.
    pub fn cancel_match(&mut self, match_id: &str) -> (cancelled: Option<PendingMatch>)
        requires
            old(self).wf(),
        ensures
            final(self).wf(),
            final(self)@ == old(self)@.cancelled(match_id@),
            match cancelled {
                Some(m) => old(self)@.pending.get(match_id@) == Some(m@),
                None => old(self)@.pending.get(match_id@) is None && final(self)@ == old(self)@,
            },
    {
        proof {
            self.pending_matches@.lemma_removed_wf(match_id@);
        }
        self.pending_matches.remove(match_id)
    }

    /// The oldest pending match that mentions `user_id`, if there is one.
    pub fn find_pending_match_for_user(&self, user_id: &str) -> (found: Option<&PendingMatch>)
        requires
            self.wf(),
        ensures
            match found {
                Some(m) => exists|i: int|
                    self@.is_first_match_of(user_id@, i) && m@ == self@.pending.value_at(i),
                None => self@.has_no_match_of(user_id@),
            },
    {
        let mut i: usize = 0;
        while i < self.pending_matches.len()
            invariant
                self.wf(),
                i <= self@.pending.len(),
                forall|j: int|
                    0 <= j < i ==> !(#[trigger] self@.pending.value_at(j)).mentions(user_id@),
            decreases self@.pending.len() - i,
        {
            let m = self.pending_matches.value_at(i);
            if str_eq(m.player1_id.as_str(), user_id) || str_eq(m.player2_id.as_str(), user_id) {
                assert(self@.is_first_match_of(user_id@, i as int));
                return Some(m);
            }
            i += 1;
        }
        None
    }

    /// The present reading of the service's clock, in milliseconds.
    pub fn now(&self) -> u64 {
        self.clock.now_ms()
    }

    /// Pairs the waiting players off at `now`, oldest first, until fewer
    /// than two are left. Each match gets a freshly minted id, is recorded
    /// as pending with neither player ready, and is handed back; ratings
    /// are not consulted.
    pub fn find_matches_at(&mut self, now: u64) -> (created: Vec<PendingMatch>)
        requires
            old(self).wf(),
        ensures
            final(self).wf(),
            old(self)@.pairs_off(match_views(created@)),
            forall|i: int|
                0 <= i < created@.len() ==> (#[trigger] match_views(created@)[i]).created_at
                    == now && match_views(created@)[i].match_id.len() == 36,
            final(self)@ == old(self)@.paired_all(match_views(created@)),
            final(self)@.queue.order == old(self)@.queue.order.skip(2 * (created@.len() as int)),
            final(self)@.queue.len() < 2,
    {
        let ghost before = self@;
        let mut created: Vec<PendingMatch> = Vec::new();
        assert(match_views(created@) =~= Seq::empty());
        assert(before.queue.order.skip(0) =~= before.queue.order);
        while self.queue.len() >= 2
            invariant
                self.wf(),
                before.wf(),
                2 * created@.len() + self@.queue.len() == before.queue.len(),
                self@ == before.paired_all(match_views(created@)),
                self@.queue.order == before.queue.order.skip(2 * (created@.len() as int)),
                forall|k: Seq<char>| #[trigger]
                    self@.queue.map.contains_key(k) ==> before.queue.map.contains_key(k)
                        && self@.queue.map[k] == before.queue.map[k],
                forall|i: int|
                    0 <= i < created@.len() ==> #[trigger] match_views(created@)[i]
                        == PendingMatchView::of(
                        match_views(created@)[i].match_id,
                        before.queue.value_at(2 * i),
                        before.queue.value_at(2 * i + 1),
                        now,
                    ) && match_views(created@)[i].match_id.len() == 36,
            decreases self@.queue.len(),
        {
            let match_id = new_uuid();
            let ghost current = self@;
            let ghost made = match_views(created@);
            proof {
                assert(current.queue.order.contains(current.queue.order[0]));
                assert(current.queue.order.contains(current.queue.order[1]));
            }
            match self.pair_next(match_id, now) {
                Some(new_match) => {
                    created.push(new_match);
                    proof {
                        let after = match_views(created@);
                        assert(after =~= made.push(new_match@));
                        assert(after.drop_last() =~= made);
                        assert(self@.queue.order =~= before.queue.order.skip(
                            2 * (created@.len() as int),
                        ));
                        assert(after[made.len() as int] == new_match@);
                    }
                },
                None => {},
            }
        }
        created
    }

    /// Pairs the waiting players off at the present reading of the
    /// service's clock, oldest first, until fewer than two are left. The
    /// matches of one call are made at one time; each gets a freshly minted
    /// id of 36 characters.
    pub fn find_matches(&mut self) -> (created: Vec<PendingMatch>)
        requires
            old(self).wf(),
        ensures
            final(self).wf(),
            old(self)@.pairs_off(match_views(created@)),
            forall|i: int|
                0 <= i < created@.len() ==> (#[trigger] match_views(created@)[i]).match_id.len()
                    == 36,
            forall|i: int, j: int|
                0 <= i < created@.len() && 0 <= j < created@.len() ==> (#[trigger] match_views(
                    created@,
                )[i]).created_at == (#[trigger] match_views(created@)[j]).created_at,
            final(self)@ == old(self)@.paired_all(match_views(created@)),
            final(self)@.queue.order == old(self)@.queue.order.skip(2 * (created@.len() as int)),
            final(self)@.queue.len() < 2,
    {
        let now = self.now();
        self.find_matches_at(now)
    }

    /// Removes the pending matches that are older than `timeout`
    /// milliseconds at `now` and hands them back, oldest first.
    pub fn cleanup_pending_matches_at(&mut self, timeout: u64, now: u64) -> (expired: Vec<
        PendingMatch,
    >)
        requires
            old(self).wf(),
        ensures
            final(self).wf(),
            match_views(expired@) == old(self)@.expired(timeout, now),
            final(self)@ == old(self)@.cleaned(timeout, now),
    {
        let ghost before = self@;
        let ghost order = before.pending.order;
        let ghost gone = |k: Seq<char>| before.pending.map[k].expired(timeout, now);
        let ghost stays = |k: Seq<char>| !before.pending.map[k].expired(timeout, now);
        let ghost value = |k: Seq<char>| before.pending.map[k];
        let ghost mut n: int = 0;
        let mut expired: Vec<PendingMatch> = Vec::new();
        let mut kept: Registry<PendingMatch> = Registry::new();
        proof {
            reveal(Seq::filter);
            assert(order.take(0) =~= Seq::<Seq<char>>::empty());
            assert(order.skip(0) =~= order);
            assert(match_views(expired@) =~= order.take(0).filter(gone).map_values(value));
            assert(kept@.map =~= Map::new(
                |k: Seq<char>| order.take(0).contains(k) && stays(k),
                |k: Seq<char>| before.pending.map[k],
            ));
        }
        while self.pending_matches.len() > 0
            invariant
                before.wf(),
                order == before.pending.order,
                gone == |k: Seq<char>| before.pending.map[k].expired(timeout, now),
                stays == |k: Seq<char>| !before.pending.map[k].expired(timeout, now),
                value == |k: Seq<char>| before.pending.map[k],
                self.queue.wf(),
                self.queue@ == before.queue,
                self.pending_matches.wf(),
                kept.wf(),
                0 <= n <= order.len(),
                self.pending_matches@.order == order.skip(n),
                forall|k: Seq<char>| #[trigger]
                    self.pending_matches@.map.contains_key(k) ==> before.pending.map.contains_key(
                        k,
                    ) && self.pending_matches@.map[k] == before.pending.map[k],
                kept@.order == order.take(n).filter(stays),
                kept@.map == Map::new(
                    |k: Seq<char>| order.take(n).contains(k) && stays(k),
                    |k: Seq<char>| before.pending.map[k],
                ),
                match_views(expired@) == order.take(n).filter(gone).map_values(value),
            decreases order.len() - n,
        {
            let ghost rest = self.pending_matches@;
            let ghost kept_before = kept@;
            let ghost expired_before = match_views(expired@);
            proof {
                self.pending_matches.lemma_view_wf();
                kept.lemma_view_wf();
                assert(rest.order[0] == order[n]);
                assert(rest.order.contains(order[n]));
                lemma_filter_step(order, gone, n);
                lemma_filter_step(order, stays, n);
                assert(!order.take(n).contains(order[n])) by {
                    if order.take(n).contains(order[n]) {
                        let j = choose|j: int|
                            0 <= j < order.take(n).len() && order.take(n)[j] == order[n];
                        assert(order[j] == order[n]);
                    }
                }
                let done = order.take(n);
                let next = order.take(n + 1);
                assert forall|k: Seq<char>| next.contains(k) <==> (done.contains(k) || k
                    == order[n]) by {
                    if next.contains(k) {
                        let j = choose|j: int| 0 <= j < next.len() && next[j] == k;
                        if j < n {
                            assert(done[j] == k);
                        }
                    }
                    if done.contains(k) {
                        let j = choose|j: int| 0 <= j < done.len() && done[j] == k;
                        assert(next[j] == k);
                    }
                    if k == order[n] {
                        assert(next[n] == k);
                    }
                }
            }
            match self.pending_matches.pop_front() {
                Some((id, pending_match)) => {
                    assert(id@ == order[n]);
                    assert(pending_match@ == before.pending.map[order[n]]);
                    if now > pending_match.created_at && now - pending_match.created_at > timeout {
                        expired.push(pending_match);
                        proof {
                            assert(gone(order[n]));
                            assert(match_views(expired@) =~= expired_before.push(
                                before.pending.map[order[n]],
                            ));
                            assert(match_views(expired@) =~= order.take(n + 1).filter(
                                gone,
                            ).map_values(value));
                            assert(kept@.map =~= Map::new(
                                |k: Seq<char>| order.take(n + 1).contains(k) && stays(k),
                                |k: Seq<char>| before.pending.map[k],
                            ));
                        }
                    } else {
                        kept.insert(id, pending_match);
                        proof {
                            assert(stays(order[n]));
                            assert(kept@.map =~= Map::new(
                                |k: Seq<char>| order.take(n + 1).contains(k) && stays(k),
                                |k: Seq<char>| before.pending.map[k],
                            ));
                        }
                    }
                    proof {
                        assert(self.pending_matches@.order =~= order.skip(n + 1));
                        n = n + 1;
                    }
                },
                None => {},
            }
        }
        proof {
            assert(order.take(n) =~= order);
            kept.lemma_view_wf();
            assert(kept@.map =~= before.cleaned(timeout, now).pending.map);
        }
        self.pending_matches = kept;
        expired
    }

    /// Removes the pending matches that are older than `timeout`
    /// milliseconds at the present reading of the service's clock and hands
    /// them back, oldest first.
    pub fn cleanup_pending_matches(&mut self, timeout: u64) -> (expired: Vec<PendingMatch>)
        requires
            old(self).wf(),
        ensures
            final(self).wf(),
            exists|now: u64|
                match_views(expired@) == old(self)@.expired(timeout, now)
                    && final(self)@ == old(self)@.cleaned(timeout, now),
    {
        let now = self.now();
        self.cleanup_pending_matches_at(timeout, now)
    }

    /// The length of the queue and the mean time, in whole milliseconds,
    /// that its entries have waited at `now`.
    pub fn get_queue_stats_at(&self, now: u64) -> (stats: (usize, u64))
        requires
            self.wf(),
        ensures
            stats.0 == self@.queue.len(),
            stats.1 == self@.mean_wait(now),
    {
        let queue_size = self.queue.len();
        if queue_size == 0 {
            return (0, 0);
        }
        let mut total: u128 = 0;
        let mut i: usize = 0;
        while i < queue_size
            invariant
                self.wf(),
                queue_size == self@.queue.len(),
                i <= queue_size,
                total == self@.waited(now, i as int),
                total <= i * 0xffff_ffff_ffff_ffff,
            decreases queue_size - i,
        {
            let entry = self.queue.value_at(i);
            let waited: u64 = if now > entry.joined_at {
                now - entry.joined_at
            } else {
                0
            };
            assert((i + 1) * 0xffff_ffff_ffff_ffff == i * 0xffff_ffff_ffff_ffff
                + 0xffff_ffff_ffff_ffff) by (nonlinear_arith);
            assert(i * 0xffff_ffff_ffff_ffff <= 0xffff_ffff_ffff_ffff * 0xffff_ffff_ffff_ffff)
                by (nonlinear_arith)
                requires
                    i <= 0xffff_ffff_ffff_ffff,
            ;
            total = total + waited as u128;
            i += 1;
        }
        let mean: u128 = total / (queue_size as u128);
        assert(mean <= 0xffff_ffff_ffff_ffff) by (nonlinear_arith)
            requires
                mean == total / (queue_size as u128),
                total <= queue_size * 0xffff_ffff_ffff_ffff,
                queue_size > 0,
        ;
        (queue_size, mean as u64)
    }

    /// The length of the queue and the mean time, in whole milliseconds,
    /// that its entries have waited at the present reading of the service's
    /// clock.
    pub fn get_queue_stats(&self) -> (stats: (usize, u64))
        requires
            self.wf(),
        ensures
            stats.0 == self@.queue.len(),
            exists|now: u64| stats.1 == self@.mean_wait(now),
    {
        let now = self.now();
        self.get_queue_stats_at(now)
    }
}

/// Pairing the two oldest entries takes exactly those two out of the queue
/// and leaves the service well formed.
pub proof fn lemma_paired_queue(service: MatchmakingView, match_id: Seq<char>, now: u64)
    requires
        service.wf(),
        service.queue.len() >= 2,
    ensures
        service.paired(match_id, now).wf(),
        service.paired(match_id, now).queue.order == service.queue.order.skip(2),
        forall|k: Seq<char>|
            #[trigger] service.paired(match_id, now).queue.map.contains_key(k) <==> (
            service.queue.map.contains_key(k) && k != service.queue.order[0] && k
                != service.queue.order[1]),
        forall|k: Seq<char>|
            service.paired(match_id, now).queue.map.contains_key(k) ==> #[trigger] service.paired(
                match_id,
                now,
            ).queue.map[k] == service.queue.map[k],
{
    let order = service.queue.order;
    let first = order[0];
    let second = order[1];
    assert(order.contains(first));
    assert(order.contains(second));
    assert(order.index_of(first) == 0);
    let once = service.queue.removed(first);
    service.queue.lemma_removed_wf(first);
    assert(once.order =~= order.skip(1));
    assert(once.order[0] == second);
    assert(once.order.contains(second));
    assert(once.order.index_of(second) == 0);
    once.lemma_removed_wf(second);
    assert(once.removed(second).order =~= order.skip(2));
    service.pending.lemma_inserted_wf(match_id, service.next_match(match_id, now));
}

/// Pairing the queue off takes the paired entries out of the queue, oldest
/// first, and leaves the service well formed.
pub proof fn lemma_paired_all_queue(service: MatchmakingView, made: Seq<PendingMatchView>)
    requires
        service.wf(),
        2 * made.len() <= service.queue.len(),
    ensures
        service.paired_all(made).wf(),
        service.paired_all(made).queue.order == service.queue.order.skip(2 * (made.len() as int)),
        forall|k: Seq<char>|
            #[trigger] service.paired_all(made).queue.map.contains_key(k) <==> (
            service.queue.map.contains_key(k) && service.queue.order.skip(
                2 * (made.len() as int),
            ).contains(k)),
        forall|k: Seq<char>|
            service.paired_all(made).queue.map.contains_key(k) ==> #[trigger] service.paired_all(
                made,
            ).queue.map[k] == service.queue.map[k],
    decreases made.len(),
{
    let order = service.queue.order;
    if made.len() == 0 {
        assert(order.skip(0) =~= order);
    } else {
        let n = made.len() as int;
        let shorter = made.drop_last();
        lemma_paired_all_queue(service, shorter);
        let before = service.paired_all(shorter);
        let last = made.last();
        lemma_paired_queue(before, last.match_id, last.created_at);
        let after = service.paired_all(made);
        let rest = order.skip(2 * (n - 1));
        assert(before.queue.order == rest);
        assert(rest.skip(2) =~= order.skip(2 * n));
        assert forall|k: Seq<char>| #[trigger] after.queue.map.contains_key(k) <==> (
        service.queue.map.contains_key(k) && order.skip(2 * n).contains(k)) by {
            let later = order.skip(2 * n);
            if after.queue.map.contains_key(k) {
                assert(before.queue.map.contains_key(k));
                assert(rest.contains(k));
                let j = choose|j: int| 0 <= j < rest.len() && rest[j] == k;
                assert(j >= 2);
                assert(later[j - 2] == k);
            }
            if service.queue.map.contains_key(k) && later.contains(k) {
                let j = choose|j: int| 0 <= j < later.len() && later[j] == k;
                assert(rest[j + 2] == k);
                assert(rest.contains(k));
                assert(order[2 * n + j] == k);
                assert(rest[0] == order[2 * n - 2]);
                assert(rest[1] == order[2 * n - 1]);
            }
        }
    }
}

/// A player who joins leaves the service well formed.
pub proof fn lemma_enqueued_wf(
    service: MatchmakingView,
    user: Seq<char>,
    name: Seq<char>,
    rating: u32,
    now: u64,
)
    requires
        service.wf(),
    ensures
        service.enqueued(user, name, rating, now).wf(),
{
    service.queue.lemma_inserted_wf(
        user,
        QueueEntryView { user_id: user, username: name, rating, joined_at: now },
    );
}

/// A player who leaves the queue leaves the service well formed.
pub proof fn lemma_dequeued_wf(service: MatchmakingView, user: Seq<char>)
    requires
        service.wf(),
    ensures
        service.dequeued(user).wf(),
{
    service.queue.lemma_removed_wf(user);
}

/// Giving the expired matches up leaves the service well formed.
pub proof fn lemma_cleaned_wf(service: MatchmakingView, timeout: u64, now: u64)
    requires
        service.wf(),
    ensures
        service.cleaned(timeout, now).wf(),
{
    let stays = |k: Seq<char>| !service.pending.map[k].expired(timeout, now);
    lemma_filter_members(service.pending.order, stays);
    let after = service.cleaned(timeout, now).pending;
    assert forall|k: Seq<char>| after.order.contains(k) <==> after.map.contains_key(k) by {
        if after.order.contains(k) {
            assert(service.pending.order.contains(k) && stays(k));
        }
        if after.map.contains_key(k) {
            assert(service.pending.order.contains(k));
            assert(stays(k));
        }
    }
}

/// Cancelling a match leaves the service well formed and its queue as it
/// is.
pub proof fn lemma_cancelled_wf(service: MatchmakingView, match_id: Seq<char>)
    requires
        service.wf(),
    ensures
        service.cancelled(match_id).wf(),
        service.cancelled(match_id).queue == service.queue,
{
    service.pending.lemma_removed_wf(match_id);
}

/// The matches that are pending after the queue was paired off are those
/// that were pending before and those that were made.
pub proof fn lemma_paired_all_pending(service: MatchmakingView, made: Seq<PendingMatchView>)
    ensures
        forall|k: Seq<char>|
            #[trigger] service.paired_all(made).pending.map.contains_key(k) ==> (
            service.pending.map.contains_key(k) || exists|i: int|
                0 <= i < made.len() && (#[trigger] made[i]).match_id == k),
    decreases made.len(),
{
    if made.len() > 0 {
        let shorter = made.drop_last();
        lemma_paired_all_pending(service, shorter);
        let before = service.paired_all(shorter);
        let after = service.paired_all(made);
        assert forall|k: Seq<char>| #[trigger] after.pending.map.contains_key(k) implies (
        service.pending.map.contains_key(k) || exists|i: int|
            0 <= i < made.len() && (#[trigger] made[i]).match_id == k) by {
            if k == made.last().match_id {
                assert(made[made.len() - 1].match_id == k);
            } else {
                assert(before.pending.map.contains_key(k));
                if !service.pending.map.contains_key(k) {
                    let i = choose|i: int|
                        0 <= i < shorter.len() && (#[trigger] shorter[i]).match_id == k;
                    assert(made[i].match_id == k);
                }
            }
        }
    }
}

/// The matches that pair a well-formed queue off name the entries of the
/// queue in their order: the first match the two oldest, and so on. No
/// player stands in two of them, nor twice in one.
pub proof fn lemma_pairs_off_players(service: MatchmakingView, made: Seq<PendingMatchView>)
    requires
        service.wf(),
        service.pairs_off(made),
    ensures
        forall|i: int|
            0 <= i < made.len() ==> (#[trigger] made[i]).player1_id == service.queue.order[2 * i]
                && made[i].player2_id == service.queue.order[2 * i + 1] && made[i].player1_name
                == service.queue.map[service.queue.order[2 * i]].username && made[i].player2_name
                == service.queue.map[service.queue.order[2 * i + 1]].username,
        forall|i: int| 0 <= i < made.len() ==> (#[trigger] made[i]).player1_id != made[i].player2_id,
        forall|i: int, j: int|
            0 <= i < made.len() && 0 <= j < made.len() && i != j ==> !(#[trigger] made[i]).mentions(
                (#[trigger] made[j]).player1_id,
            ) && !made[i].mentions(made[j].player2_id),
{
    let queue = service.queue;
    let order = queue.order;
    assert forall|i: int| 0 <= i < made.len() implies (#[trigger] made[i]).player1_id == order[2
        * i] && made[i].player2_id == order[2 * i + 1] && made[i].player1_name
        == queue.map[order[2 * i]].username && made[i].player2_name == queue.map[order[2 * i
        + 1]].username by {
        assert(order.contains(order[2 * i]));
        assert(order.contains(order[2 * i + 1]));
        assert(queue.map.contains_key(order[2 * i]));
        assert(queue.map.contains_key(order[2 * i + 1]));
        assert(queue.map[order[2 * i]].user_id == order[2 * i]);
        assert(queue.map[order[2 * i + 1]].user_id == order[2 * i + 1]);
    }
}

} // verus!
