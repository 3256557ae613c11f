//! Rounds of a match: answers, the move to the next question and settlement.

use vstd::prelude::*;
use crate::database::RankUpdate;
use crate::game::{
    award, bump, clamp_i32, draw_question, elapsed, elapsed_secs, points_after_right_answer,
    retro_date, retro_dated, GameView, EARLY_ADVANCE_SECS, ROUNDS, RATING_GAIN,
};
use crate::player::{answer_fields, game_ended_fields, question_update_fields, PlayerView};
use crate::protocol::Fault;
use crate::state::{
    index_of, is_registered, lemma_index_of, lemma_one_match, lemma_same_peers_wf, note_unsent,
    Model, State,
};

verus! {

broadcast use vstd::std_specs::hash::group_hash_axioms;

/// Whether a match with the id `id` is live.
pub open spec fn is_live(games: Seq<GameView>, id: u64) -> bool {
    exists|g: int| 0 <= g < games.len() && (#[trigger] games[g]).id == id
}

/// Where the live match with the id `id` stands.
pub open spec fn game_index(games: Seq<GameView>, id: u64) -> int {
    choose|g: int| 0 <= g < games.len() && (#[trigger] games[g]).id == id
}

/// What is stored for a player after a match.
pub open spec fn rank_of(p: PlayerView) -> RankUpdate {
    RankUpdate { id: p.id, rating: p.rating, win_count: p.win_count, lose_count: p.lose_count }
}

/// The name announced as the winner: the name of the player with strictly
/// more points, `-` on a tie.
pub open spec fn winner_name(first: PlayerView, second: PlayerView) -> Seq<char> {
    if first.points == second.points {
        "-"@
    } else if first.points > second.points {
        first.name
    } else {
        second.name
    }
}

/// A player when its match is settled against `other`. Strictly more points
/// than the other make a win, strictly fewer a loss; on a tie neither count
/// moves. A competitive match adds `RATING_GAIN` to the rating of the winner.
pub open spec fn settled(p: PlayerView, other: PlayerView, competitive: bool) -> PlayerView {
    PlayerView {
        win_count: if p.points > other.points {
            clamp_i32(p.win_count + 1)
        } else {
            p.win_count
        },
        lose_count: if p.points < other.points {
            clamp_i32(p.lose_count + 1)
        } else {
            p.lose_count
        },
        rating: if competitive && p.points > other.points {
            clamp_i32(p.rating + RATING_GAIN)
        } else {
            p.rating
        },
        ..p
    }
}

/// A player that is in no match: no points, no answer given, no reference.
pub open spec fn released(p: PlayerView) -> PlayerView {
    PlayerView { points: 0, answered: false, game_id: None, ..p }
}

impl Model {
    /// The match that `peer` may answer in: the live match its player refers
    /// to, if `peer` plays in it.
    pub open spec fn match_of(self, peer: u64) -> Option<int> {
        let p = self.players[index_of(self.players, peer)];
        match p.game_id {
            Some(id) => if is_live(self.games, id) && self.games[game_index(self.games, id)].has(
                peer,
            ) {
                Some(game_index(self.games, id))
            } else {
                None
            },
            None => None,
        }
    }

    /// How an answer of `peer` ends: it is turned down where the player has
    /// answered the current question before, or is in no live match.
    pub open spec fn answer_outcome(self, peer: u64) -> Result<(), Fault> {
        let p = self.players[index_of(self.players, peer)];
        if p.answered {
            Err(Fault::AnsweredTwice)
        } else if self.match_of(peer) is None {
            Err(Fault::NotInMatch)
        } else {
            Ok(())
        }
    }

    /// The index of the right option of the question a match is on. Before the
    /// first round there is no question, and the index is 0.
    pub open spec fn right_answer(self, g: int) -> i32 {
        match self.games[g].question {
            Some(q) => self.questions[q as int].answer_index,
            None => 0,
        }
    }

    /// The state after `peer` gave the answer `answer_index` at `now`. A
    /// request that is turned down changes nothing. Otherwise a right answer
    /// scores, the player has answered, the index of the right option is sent
    /// back, and, where the opponent has answered too and fewer than
    /// `EARLY_ADVANCE_SECS` whole seconds of the round have passed, the round's
    /// start is moved back.
    pub open spec fn submit_answer(self, peer: u64, answer_index: i32, now: i64) -> Model {
        if self.answer_outcome(peer) is Err {
            self
        } else {
            let i = index_of(self.players, peer);
            let p = self.players[i];
            let g = self.match_of(peer).unwrap();
            let game = self.games[g];
            let secs = elapsed_secs(game.stage_timer, now);
            let right = self.right_answer(g);
            let other = self.players[index_of(self.players, game.opponent(peer))];
            Model {
                players: self.players.update(
                    i,
                    PlayerView {
                        points: if answer_index == right {
                            points_after_right_answer(p.points, secs)
                        } else {
                            p.points
                        },
                        answered: true,
                        ..p
                    },
                ),
                games: if other.answered && secs < EARLY_ADVANCE_SECS {
                    self.games.update(g, GameView { stage_timer: retro_dated(now), ..game })
                } else {
                    self.games
                },
                ..self
            }.post(peer, answer_fields(right))
        }
    }

    /// The state after match `g` has moved on at `now` with the question `q`.
    pub open spec fn advance(self, g: int, q: usize, now: i64) -> Model {
        if self.games[g].stage >= ROUNDS {
            self.settle(g, q)
        } else {
            self.next_round(g, q, now)
        }
    }

    /// Match `g` starts its next round at `now` on the question `q`: both
    /// players are sent the question with their own points and the other's,
    /// the first player first. From the second round on, both may answer again.
    pub open spec fn next_round(self, g: int, q: usize, now: i64) -> Model {
        let game = self.games[g];
        let i1 = index_of(self.players, game.p1);
        let i2 = index_of(self.players, game.p2);
        let p1 = self.players[i1];
        let p2 = self.players[i2];
        let question = self.questions[q as int];
        Model {
            games: self.games.update(g, game.advanced(q, now)),
            players: if game.started {
                self.players.update(i1, PlayerView { answered: false, ..p1 }).update(
                    i2,
                    PlayerView { answered: false, ..p2 },
                )
            } else {
                self.players
            },
            ..self
        }.post(game.p1, question_update_fields(p1.points, p2.points, question)).post(
            game.p2,
            question_update_fields(p2.points, p1.points, question),
        )
    }

    /// Match `g` is settled. Both players are sent the winner's name, then the
    /// question `q` with the points as they stood; their records and ratings
    /// are brought up to date and queued for storage; both are released; the
    /// match is gone.
    pub open spec fn settle(self, g: int, q: usize) -> Model {
        let game = self.games[g];
        let i1 = index_of(self.players, game.p1);
        let i2 = index_of(self.players, game.p2);
        let p1 = self.players[i1];
        let p2 = self.players[i2];
        let question = self.questions[q as int];
        let winner = winner_name(p1, p2);
        let s1 = settled(p1, p2, game.competitive);
        let s2 = settled(p2, p1, game.competitive);
        Model {
            games: self.games.remove(g),
            players: self.players.update(i1, released(s1)).update(i2, released(s2)),
            saves: self.saves.push(rank_of(s1)).push(rank_of(s2)),
            ..self
        }.post(game.p1, game_ended_fields(winner)).post(game.p2, game_ended_fields(winner)).post(
            game.p1,
            question_update_fields(p1.points, p2.points, question),
        ).post(game.p2, question_update_fields(p2.points, p1.points, question))
    }

    /// How many of the matches from index `from` on are due at `now`.
    pub open spec fn due_from(self, from: int, now: i64) -> nat
        decreases self.games.len() - from,
    {
        if from < 0 || from >= self.games.len() {
            0
        } else if self.games[from].is_due(now) {
            self.due_from(from + 1, now) + 1
        } else {
            self.due_from(from + 1, now)
        }
    }

    /// Whether `picks` holds one question for each match from index `from` on
    /// that is due at `now`, each a question of the bank that its match has not
    /// used before.
    pub open spec fn picks_fit(self, from: int, now: i64, picks: Seq<usize>) -> bool
        decreases self.games.len() - from,
    {
        if from < 0 || from >= self.games.len() {
            picks.len() == 0
        } else if self.games[from].is_due(now) {
            &&& picks.len() > 0
            &&& picks.last() < self.questions.len()
            &&& !self.games[from].previous_questions.contains(picks.last())
            &&& self.picks_fit(from + 1, now, picks.drop_last())
        } else {
            self.picks_fit(from + 1, now, picks)
        }
    }

    /// The state after every match from index `from` on that is due at `now`
    /// has moved on, the last match first. `picks` holds the questions drawn,
    /// one for each match that is due, in the order in which they were drawn.
    pub open spec fn polled(self, from: int, now: i64, picks: Seq<usize>) -> Model
        decreases self.games.len() - from,
    {
        if from < 0 || from >= self.games.len() {
            self
        } else if self.games[from].is_due(now) {
            self.polled(from + 1, now, picks.drop_last()).advance(from, picks.last(), now)
        } else {
            self.polled(from + 1, now, picks)
        }
    }
}

impl State {
    /// Where the live match with the id `id` stands.
    pub fn find_game(&self, id: u64) -> (r: Option<usize>)
        ensures
            match r {
                Some(g) => g < self@.games.len() && self@.games[g as int].id == id,
                None => !is_live(self@.games, id),
            },
            self.wf() && r is Some ==> r.unwrap() == game_index(self@.games, id),
    {
        let mut g: usize = 0;
        while g < self.games.len()
            invariant
                g <= self.games@.len(),
                forall|h: int| 0 <= h < g ==> (#[trigger] self@.games[h]).id != id,
            decreases self.games@.len() - g,
        {
            if self.games[g].id == id {
                return Some(g);
            }
            g += 1;
        }
        None
    }

    /// Where the live match stands that the player of `peer_id` refers to and
    /// plays in.
    pub fn find_match(&self, peer_id: u64) -> (r: Option<usize>)
        requires
            self.wf(),
            is_registered(self@.players, peer_id),
        ensures
            match r {
                Some(g) => self@.match_of(peer_id) == Some(g as int) && g < self@.games.len(),
                None => self@.match_of(peer_id) is None,
            },
    {
        let i = self.index_of_player(peer_id);
        let id = match self.players[i].game_id {
            Some(id) => id,
            None => {
                return None;
            },
        };
        let g = match self.find_game(id) {
            Some(g) => g,
            None => {
                return None;
            },
        };
        if self.games[g].p1 != peer_id && self.games[g].p2 != peer_id {
            return None;
        }
        Some(g)
    }

    /// Handles the answer `answer_index` that the player of `peer_id` gave at
    /// `now`. An error means the connection is to be terminated.
    pub fn submit_answer(&mut self, peer_id: u64, answer_index: i32, now: i64) -> (r: Result<
        (),
        Fault,
    >)
        requires
            old(self).wf(),
            is_registered(old(self)@.players, peer_id),
        ensures
            r == old(self)@.answer_outcome(peer_id),
            final(self)@ == old(self)@.submit_answer(peer_id, answer_index, now),
            final(self).wf(),
    {
        let i = self.index_of_player(peer_id);
        if self.players[i].answered {
            return Err(Fault::AnsweredTwice);
        }
        let id = match self.players[i].game_id {
            Some(id) => id,
            None => {
                return Err(Fault::NotInMatch);
            },
        };
        let g = match self.find_game(id) {
            Some(g) => g,
            None => {
                return Err(Fault::NotInMatch);
            },
        };
        if self.games[g].p1 != peer_id && self.games[g].p2 != peer_id {
            return Err(Fault::NotInMatch);
        }
        let secs = elapsed(self.games[g].stage_timer, now);
        let right = match self.games[g].question {
            Some(q) => self.questions[q].answer_index,
            None => 0,
        };
        let other_peer = if self.games[g].p1 == peer_id {
            self.games[g].p2
        } else {
            self.games[g].p1
        };
        let j = self.index_of_player(other_peer);
        let other_answered = self.players[j].answered;
        if answer_index == right {
            self.players[i].points = award(self.players[i].points, secs);
        }
        self.players[i].answered = true;
        let queued = self.players[i].send_answer(&mut self.packets, right);
        note_unsent(&mut self.unsent, self.players[i].peer_id, queued);
        if other_answered && secs < EARLY_ADVANCE_SECS {
            self.games[g].stage_timer = retro_date(now);
            assert(self@.games =~= old(self)@.games.update(
                g as int,
                GameView { stage_timer: retro_dated(now), ..old(self)@.games[g as int] },
            ));
        }
        proof {
            let p = old(self)@.players[i as int];
            assert(self@.players =~= old(self)@.players.update(
                i as int,
                PlayerView {
                    points: if answer_index == right {
                        points_after_right_answer(p.points, secs as int)
                    } else {
                        p.points
                    },
                    answered: true,
                    ..p
                },
            ));
            lemma_same_peers_wf(old(self)@, self@);
        }
        Ok(())
    }

    /// Moves match `g` on at `now`: to its next round on the question `q`, or,
    /// after the last round, to its settlement.
    pub fn advance_game(&mut self, g: usize, q: usize, now: i64)
        requires
            old(self).wf(),
            g < old(self)@.games.len(),
            q < old(self)@.questions.len(),
            !old(self)@.games[g as int].previous_questions.contains(q),
        ensures
            final(self)@ == old(self)@.advance(g as int, q, now),
            final(self).wf(),
    {
        let ghost before = self@;
        let i1 = self.index_of_player(self.games[g].p1);
        let i2 = self.index_of_player(self.games[g].p2);
        let points1 = self.players[i1].points;
        let points2 = self.players[i2].points;
        if self.games[g].stage >= ROUNDS {
            if points1 == points2 {
                let queued = self.players[i1].send_game_ended(&mut self.packets, "-");
                note_unsent(&mut self.unsent, self.players[i1].peer_id, queued);
                let queued = self.players[i2].send_game_ended(&mut self.packets, "-");
                note_unsent(&mut self.unsent, self.players[i2].peer_id, queued);
            } else if points1 > points2 {
                let queued = self.players[i1].send_game_ended(&mut self.packets, self.players[i1].name.as_str());
                note_unsent(&mut self.unsent, self.players[i1].peer_id, queued);
                let queued = self.players[i2].send_game_ended(&mut self.packets, self.players[i1].name.as_str());
                note_unsent(&mut self.unsent, self.players[i2].peer_id, queued);
            } else {
                let queued = self.players[i1].send_game_ended(&mut self.packets, self.players[i2].name.as_str());
                note_unsent(&mut self.unsent, self.players[i1].peer_id, queued);
                let queued = self.players[i2].send_game_ended(&mut self.packets, self.players[i2].name.as_str());
                note_unsent(&mut self.unsent, self.players[i2].peer_id, queued);
            }
            let queued = self.players[i1].send_question_update(
                &mut self.packets,
                points1,
                points2,
                &self.questions[q],
            );
            note_unsent(&mut self.unsent, self.players[i1].peer_id, queued);
            let queued = self.players[i2].send_question_update(
                &mut self.packets,
                points2,
                points1,
                &self.questions[q],
            );
            note_unsent(&mut self.unsent, self.players[i2].peer_id, queued);
            if points1 > points2 {
                self.players[i1].win_count = bump(self.players[i1].win_count, 1);
                self.players[i2].lose_count = bump(self.players[i2].lose_count, 1);
            } else if points2 > points1 {
                self.players[i2].win_count = bump(self.players[i2].win_count, 1);
                self.players[i1].lose_count = bump(self.players[i1].lose_count, 1);
            }
            if self.games[g].competitive {
                if points1 > points2 {
                    self.players[i1].rating = bump(self.players[i1].rating, RATING_GAIN);
                } else if points2 > points1 {
                    self.players[i2].rating = bump(self.players[i2].rating, RATING_GAIN);
                }
            }
            self.saves.push(
                RankUpdate {
                    id: self.players[i1].id,
                    rating: self.players[i1].rating,
                    win_count: self.players[i1].win_count,
                    lose_count: self.players[i1].lose_count,
                },
            );
            self.saves.push(
                RankUpdate {
                    id: self.players[i2].id,
                    rating: self.players[i2].rating,
                    win_count: self.players[i2].win_count,
                    lose_count: self.players[i2].lose_count,
                },
            );
            self.players[i1].points = 0;
            self.players[i2].points = 0;
            self.players[i1].answered = false;
            self.players[i2].answered = false;
            self.players[i1].game_id = None;
            self.players[i2].game_id = None;
            self.games.remove(g);
            proof {
                let game = before.games[g as int];
                let p1 = before.players[i1 as int];
                let p2 = before.players[i2 as int];
                let s1 = settled(p1, p2, game.competitive);
                let s2 = settled(p2, p1, game.competitive);
                assert(self@.games =~= before.games.remove(g as int));
                assert(self@.players =~= before.players.update(i1 as int, released(s1)).update(
                    i2 as int,
                    released(s2),
                ));
                lemma_settle_wf(before, g as int, q);
            }
        } else {
            let queued = self.players[i1].send_question_update(
                &mut self.packets,
                points1,
                points2,
                &self.questions[q],
            );
            note_unsent(&mut self.unsent, self.players[i1].peer_id, queued);
            let queued = self.players[i2].send_question_update(
                &mut self.packets,
                points2,
                points1,
                &self.questions[q],
            );
            note_unsent(&mut self.unsent, self.players[i2].peer_id, queued);
            if self.games[g].started {
                self.players[i1].answered = false;
                self.players[i2].answered = false;
            } else {
                self.games[g].started = true;
            }
            self.games[g].stage = self.games[g].stage + 1;
            self.games[g].question = Some(q);
            self.games[g].stage_timer = now;
            self.games[g].previous_questions.insert(q);
            proof {
                let game = before.games[g as int];
                let p1 = before.players[i1 as int];
                let p2 = before.players[i2 as int];
                assert(self@.games =~= before.games.update(
                    g as int,
                    GameView {
                        stage: (game.stage + 1) as i32,
                        started: true,
                        question: Some(q),
                        stage_timer: now,
                        previous_questions: game.previous_questions.insert(q),
                        ..game
                    },
                ));
                if game.started {
                    assert(self@.players =~= before.players.update(
                        i1 as int,
                        PlayerView { answered: false, ..p1 },
                    ).update(i2 as int, PlayerView { answered: false, ..p2 }));
                }
                lemma_same_peers_wf(before, self@);
            }
        }
    }
}

/// Moves on every match that is due at `now`, the youngest match first: to its
/// next round, or to its settlement. Which questions are drawn is left to
/// chance; everything else is fixed by the state and `now`.
pub fn poll_game(state: &mut State, now: i64)
    requires
        old(state).wf(),
    ensures
        final(state).wf(),
        exists|picks: Seq<usize>|
            {
                &&& picks.len() == old(state)@.due_from(0, now)
                &&& old(state)@.picks_fit(0, now, picks)
                &&& final(state)@ == old(state)@.polled(0, now, picks)
            },
{
    let ghost before = state@;
    let ghost picks: Seq<usize> = Seq::empty();
    let mut k: usize = state.games.len();
    while k > 0
        invariant
            before.wf(),
            state.wf(),
            k <= state@.games.len(),
            k <= before.games.len(),
            state@.questions == before.questions,
            forall|g: int| 0 <= g < k ==> #[trigger] state@.games[g] == before.games[g],
            picks.len() == before.due_from(k as int, now),
            before.picks_fit(k as int, now, picks),
            state@ == before.polled(k as int, now, picks),
        decreases k,
    {
        k -= 1;
        assert(state@.game_ok(state@.games[k as int]));
        if state.games[k].is_due(now) {
            let q = draw_question(&state.games[k].previous_questions, state.questions.len());
            state.advance_game(k, q, now);
            proof {
                assert(picks.push(q).drop_last() =~= picks);
                picks = picks.push(q);
            }
        }
    }
}

/// Under distinct ids the match with the id `id` stands where any match with
/// that id stands.
pub proof fn lemma_game_index(games: Seq<GameView>, id: u64, g: int)
    requires
        forall|a: int, b: int|
            0 <= a < games.len() && 0 <= b < games.len() && a != b ==> (#[trigger] games[a]).id != (
            #[trigger] games[b]).id,
        0 <= g < games.len(),
        games[g].id == id,
    ensures
        is_live(games, id),
        game_index(games, id) == g,
{
}

/// Settling a match keeps the state well formed.
pub proof fn lemma_settle_wf(m: Model, g: int, q: usize)
    requires
        m.wf(),
        0 <= g < m.games.len(),
    ensures
        m.settle(g, q).wf(),
{
    let after = m.settle(g, q);
    let game = m.games[g];
    assert(m.game_ok(game));
    let i1 = index_of(m.players, game.p1);
    let i2 = index_of(m.players, game.p2);
    lemma_one_match(m, game.p1);
    lemma_one_match(m, game.p2);
    assert forall|k: int| 0 <= k < after.players.len() implies (#[trigger] after.players[k]).peer_id
        == m.players[k].peer_id by {}
    assert forall|peer: u64| is_registered(m.players, peer) implies is_registered(
        after.players,
        peer,
    ) && index_of(after.players, peer) == index_of(m.players, peer) by {
        let k = index_of(m.players, peer);
        assert(after.players[k].peer_id == peer);
        lemma_index_of(after.players, peer, k);
    }
    assert forall|h: int| 0 <= h < after.games.len() implies after.game_ok(
        #[trigger] after.games[h],
    ) by {
        let h0 = if h < g {
            h
        } else {
            h + 1
        };
        assert(after.games[h] == m.games[h0]);
        let other = m.games[h0];
        assert(m.game_ok(other));
        assert(!other.has(game.p1) && !other.has(game.p2));
        assert(index_of(m.players, other.p1) != i1 && index_of(m.players, other.p1) != i2);
        assert(index_of(m.players, other.p2) != i1 && index_of(m.players, other.p2) != i2);
    }
    assert forall|a: int, b: int|
        0 <= a < after.games.len() && 0 <= b < after.games.len() && a != b implies (
    #[trigger] after.games[a]).id != (#[trigger] after.games[b]).id by {
        let a0 = if a < g {
            a
        } else {
            a + 1
        };
        let b0 = if b < g {
            b
        } else {
            b + 1
        };
        assert(after.games[a] == m.games[a0]);
        assert(after.games[b] == m.games[b0]);
    }
    assert forall|s: int| 0 <= s < 2 implies match #[trigger] after.last_queue[s] {
        Some(waiting) => is_registered(after.players, waiting) ==> after.whose(waiting).game_id is None,
        None => true,
    } by {
        if after.last_queue[s] is Some {
            let w = after.last_queue[s].unwrap();
            assert(m.last_queue[s] == Some(w));
            if is_registered(after.players, w) {
                let k = index_of(after.players, w);
                assert(m.players[k].peer_id == w);
                lemma_index_of(m.players, w, k);
            }
        }
    }
}

} // verus!
