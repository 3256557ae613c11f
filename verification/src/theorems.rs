//! What follows from the transitions of the state, proved once and for all.

use vstd::prelude::*;
use crate::command::Command;
use crate::database::{Reply, Request};
use crate::game::{
    clamp_i32, elapsed_secs, retro_dated, GameView, EARLY_ADVANCE_SECS, ROUNDS,
    FULL_POINTS, NANOS_PER_SEC, ROUND_SECS, START_DELAY_SECS,
};
use crate::matchmaking::{lemma_free_wf, lemma_join_wf, lemma_pair_ready};
use crate::player::{answer_fields, encodes, sent};
use crate::protocol::Fault;
use crate::player::PlayerView;
use crate::round::{is_live, lemma_settle_wf, released, settled};
use crate::server::Step;
use crate::state::{
    index_of, is_registered, lemma_index_of, lemma_one_match, lemma_remove_player_wf,
    lemma_same_peers_wf, slot_of, GameQuestion, Model,
};
use crate::wire::Fields;

verus! {

/// A slot holds at most one player. A request to join from a player that is
/// in no live match leaves the slot of its mode with the player who asks if
/// it was empty, and empty otherwise. The other slot stays as it was, unless
/// the request pairs two players and it held one of them: then it is empty.
pub proof fn theorem_slot_holds_one_player(m: Model, peer: u64, competitive: bool, now: i64)
    requires
        m.wf(),
        is_registered(m.players, peer),
        m.match_of(peer) is None,
    ensures
        ({
            let slot = slot_of(competitive);
            let after = m.join_queue(peer, competitive, now);
            &&& after.last_queue.len() == 2
            &&& after.last_queue[slot] == (if m.last_queue[slot] is None {
                Some(peer)
            } else {
                None
            })
            &&& after.last_queue[1 - slot] == (if m.join_pairs(peer, competitive) && (m.last_queue[1
                - slot] == Some(peer) || m.last_queue[1 - slot] == m.last_queue[slot]) {
                None
            } else {
                m.last_queue[1 - slot]
            })
        }),
{
}

/// After start-up the state is well formed: nobody waits and nobody plays.
pub proof fn theorem_nobody_waits_at_first(questions: Seq<GameQuestion>)
    requires
        questions.len() >= crate::state::MIN_QUESTIONS,
    ensures
        Model::initial(questions).wf(),
        Model::initial(questions).last_queue == seq![None::<u64>, None::<u64>],
        Model::initial(questions).games.len() == 0,
{
}

/// In a well-formed state no player that waits in a slot holds a reference to
/// a match or plays in one, and no player plays in two matches.
pub proof fn theorem_waiting_players_are_in_no_match(m: Model, s: int, peer: u64)
    requires
        m.wf(),
    ensures
        0 <= s < 2 && m.last_queue[s] == Some(peer) && is_registered(m.players, peer) ==> m.whose(
            peer,
        ).game_id is None && m.plays_nowhere(peer) && m.match_of(peer) is None,
        forall|g: int, h: int|
            0 <= g < m.games.len() && 0 <= h < m.games.len() && (#[trigger] m.games[g]).has(peer) && (
            #[trigger] m.games[h]).has(peer) ==> g == h,
{
    lemma_one_match(m, peer);
}

/// A request to join from a player that is in a live match is turned down
/// and changes nothing.
pub proof fn theorem_matched_player_cannot_wait(m: Model, peer: u64, competitive: bool, now: i64)
    requires
        m.wf(),
        is_registered(m.players, peer),
        !m.plays_nowhere(peer),
    ensures
        m.join_outcome(peer, competitive) == Err::<(), Fault>(Fault::AlreadyInMatch),
        m.join_queue(peer, competitive, now) == m,
{
    let g = choose|g: int| 0 <= g < m.games.len() && (#[trigger] m.games[g]).has(peer);
    lemma_one_match(m, peer);
    crate::round::lemma_game_index(m.games, m.games[g].id, g);
}

impl Model {
    /// The state after the requests to join `calls`, each of them the player
    /// who asks, the mode and the time, were handled one after the other.
    pub open spec fn joined(self, calls: Seq<(u64, bool, i64)>) -> Model
        decreases calls.len(),
    {
        if calls.len() == 0 {
            self
        } else {
            let call = calls.last();
            self.joined(calls.drop_last()).join_queue(call.0, call.1, call.2)
        }
    }
}

/// Whatever requests to join registered players make, in whatever order, the
/// state stays well formed: there are two slots, each holds at most one
/// player, no waiting player holds a reference to a match, and no player is
/// in two matches.
pub proof fn theorem_slots_after_any_requests(m: Model, calls: Seq<(u64, bool, i64)>)
    requires
        m.wf(),
        forall|k: int| 0 <= k < calls.len() ==> is_registered(m.players, (#[trigger] calls[k]).0),
    ensures
        m.joined(calls).wf(),
        forall|other: u64|
            is_registered(m.players, other) <==> is_registered(m.joined(calls).players, other),
    decreases calls.len(),
{
    if calls.len() > 0 {
        let call = calls.last();
        let before = m.joined(calls.drop_last());
        assert forall|k: int| 0 <= k < calls.drop_last().len() implies is_registered(
            m.players,
            (#[trigger] calls.drop_last()[k]).0,
        ) by {
            assert(calls.drop_last()[k] == calls[k]);
        }
        theorem_slots_after_any_requests(m, calls.drop_last());
        lemma_join_wf(before, call.0, call.1, call.2);
    }
}

/// An answer of storage touches nothing but the outbound queue, the list of
/// connections whose document was not sent, and the profile of the player it
/// is for: its handle, its points, its answer and its reference to a match
/// stay, and so does every other player.
pub proof fn theorem_replies_touch_one_profile(m: Model, peer: u64, request: Request, reply: Reply)
    ensures
        ({
            let after = m.resumed(peer, request, reply);
            &&& after.games == m.games
            &&& after.saves == m.saves
            &&& after.questions == m.questions
            &&& after.last_queue == m.last_queue
            &&& after.next_game_id == m.next_game_id
            &&& after.players.len() == m.players.len()
            &&& forall|k: int|
                0 <= k < m.players.len() ==> {
                    &&& (#[trigger] after.players[k]).peer_id == m.players[k].peer_id
                    &&& after.players[k].game_id == m.players[k].game_id
                    &&& after.players[k].points == m.players[k].points
                    &&& after.players[k].answered == m.players[k].answered
                    &&& k != index_of(m.players, peer) ==> after.players[k] == m.players[k]
                }
        }),
{
    let after = m.resumed(peer, request, reply);
    if is_registered(m.players, peer) {
        let p = m.whose(peer);
        match request {
            Request::AuthLoad { rid } => {
                match reply {
                    Reply::Player(record) => {
                        let f = crate::player::auth_response_fields(
                            record.name@,
                            record.pfp_blob@,
                            record.pfp_ext@,
                            false,
                        );
                        assert(after == m.with_player(peer, crate::server::loaded(p, record)).post(
                            peer,
                            f,
                        ));
                    },
                    _ => {},
                }
            },
            Request::SavePicture { id, pfp_blob, extension } => {
                match reply {
                    Reply::Done => {
                        assert(after == m.with_player(
                            peer,
                            PlayerView { pfp_blob: pfp_blob@, pfp_ext: extension@, ..p },
                        ).post(
                            peer,
                            crate::player::change_profile_picture_fields(pfp_blob@, extension@),
                        ));
                    },
                    _ => {},
                }
            },
            Request::SaveName { id, name } => {
                match reply {
                    Reply::Done => {
                        assert(after == m.with_player(peer, PlayerView { name: name@, ..p }).post(
                            peer,
                            crate::player::update_name_fields(name@, false),
                        ));
                    },
                    _ => {},
                }
            },
            _ => {
                assert(after.players == m.players);
            },
        }
    }
}

/// Polling the matches keeps the state well formed. It keeps the bank, the
/// slots, the players' handles and their places, and leaves every match below
/// index `from` where and as it was.
pub proof fn lemma_polling_wf(m: Model, from: int, now: i64, picks: Seq<usize>)
    requires
        m.wf(),
        0 <= from <= m.games.len(),
        m.picks_fit(from, now, picks),
    ensures
        m.polled(from, now, picks).wf(),
        m.polled(from, now, picks).questions == m.questions,
        m.polled(from, now, picks).last_queue == m.last_queue,
        m.polled(from, now, picks).next_game_id == m.next_game_id,
        m.polled(from, now, picks).players.len() == m.players.len(),
        forall|k: int|
            0 <= k < m.players.len() ==> (#[trigger] m.polled(from, now, picks).players[k]).peer_id
                == m.players[k].peer_id,
        from <= m.polled(from, now, picks).games.len() <= m.games.len(),
        forall|h: int| 0 <= h < from ==> #[trigger] m.polled(from, now, picks).games[h] == m.games[h],
        m.packets.is_prefix_of(m.polled(from, now, picks).packets),
    decreases m.games.len() - from,
{
    if from < m.games.len() {
        if m.games[from].is_due(now) {
            let rest = m.polled(from + 1, now, picks.drop_last());
            lemma_polling_wf(m, from + 1, now, picks.drop_last());
            lemma_advance_wf(rest, from, picks.last(), now);
            theorem_rounds_keep_the_queue(rest, from, picks.last(), now);
        } else {
            lemma_polling_wf(m, from + 1, now, picks);
        }
    }
}

/// Where no match is due, polling changes nothing.
pub proof fn theorem_polling_waits_with_the_matches(m: Model, from: int, now: i64, picks: Seq<usize>)
    requires
        m.due_from(from, now) == 0,
    ensures
        m.polled(from, now, picks) == m,
    decreases m.games.len() - from,
{
    if 0 <= from < m.games.len() {
        theorem_polling_waits_with_the_matches(m, from + 1, now, picks);
    }
}

/// A move of a match leaves a player who is not in it as it was and where it
/// was, and queues no document for it.
pub proof fn lemma_move_spares_others(m: Model, g: int, q: usize, now: i64, peer: u64)
    requires
        m.wf(),
        0 <= g < m.games.len(),
        is_registered(m.players, peer),
        !m.games[g].has(peer),
    ensures
        m.advance(g, q, now).players[index_of(m.players, peer)] == m.whose(peer),
        m.packets.is_prefix_of(m.advance(g, q, now).packets),
        forall|k: int|
            m.packets.len() <= k < m.advance(g, q, now).packets.len() ==> (#[trigger] m.advance(
                g,
                q,
                now,
            ).packets[k]).0 != peer,
{
    let game = m.games[g];
    assert(m.game_ok(game));
    let i1 = index_of(m.players, game.p1);
    let i2 = index_of(m.players, game.p2);
    let i = index_of(m.players, peer);
    assert(i != i1 && i != i2);
}

/// Polling leaves alone every player who is in no match that is due: the
/// player stays as it was, and no document is queued for it.
pub proof fn theorem_polling_spares_idle_players(
    m: Model,
    from: int,
    now: i64,
    picks: Seq<usize>,
    peer: u64,
)
    requires
        m.wf(),
        0 <= from <= m.games.len(),
        m.picks_fit(from, now, picks),
        is_registered(m.players, peer),
        forall|g: int|
            from <= g < m.games.len() && (#[trigger] m.games[g]).is_due(now) ==> !m.games[g].has(peer),
    ensures
        is_registered(m.polled(from, now, picks).players, peer),
        m.polled(from, now, picks).whose(peer) == m.whose(peer),
        m.packets.is_prefix_of(m.polled(from, now, picks).packets),
        forall|k: int|
            m.packets.len() <= k < m.polled(from, now, picks).packets.len() ==> (#[trigger] m.polled(
                from,
                now,
                picks,
            ).packets[k]).0 != peer,
    decreases m.games.len() - from,
{
    let i = index_of(m.players, peer);
    let after = m.polled(from, now, picks);
    lemma_polling_wf(m, from, now, picks);
    lemma_index_of(after.players, peer, i);
    if from < m.games.len() {
        if m.games[from].is_due(now) {
            let rest = m.polled(from + 1, now, picks.drop_last());
            theorem_polling_spares_idle_players(m, from + 1, now, picks.drop_last(), peer);
            lemma_polling_wf(m, from + 1, now, picks.drop_last());
            lemma_index_of(rest.players, peer, i);
            lemma_move_spares_others(rest, from, picks.last(), now, peer);
            assert forall|k: int| m.packets.len() <= k < after.packets.len() implies (
            #[trigger] after.packets[k]).0 != peer by {
                if k < rest.packets.len() {
                    assert(after.packets[k] == rest.packets[k]);
                }
            }
        } else {
            theorem_polling_spares_idle_players(m, from + 1, now, picks, peer);
        }
    }
}

impl Model {
    /// Whether a poll at `now` settles the match at `g`.
    pub open spec fn settles(self, g: int, now: i64) -> bool {
        self.games[g].is_due(now) && self.games[g].stage >= ROUNDS
    }

    /// How many of the matches from index `lo` up to, but not including, `hi`
    /// a poll at `now` settles.
    pub open spec fn settled_between(self, lo: int, hi: int, now: i64) -> nat
        decreases hi - lo,
    {
        if lo >= hi {
            0
        } else if self.settles(lo, now) {
            self.settled_between(lo + 1, hi, now) + 1
        } else {
            self.settled_between(lo + 1, hi, now)
        }
    }
}

/// What polling from index `lo` on has done to the match that stood at `g`.
/// A match that is settled is gone. Every other match has moved down by as
/// many places as matches before it were settled, so that the matches left
/// keep their order; there it stands as it was if it was not due, and moved
/// on once to its next round, on an unused question of the bank, if it was.
pub open spec fn polled_once(m: Model, after: Model, g: int, lo: int, now: i64) -> bool {
    let game = m.games[g];
    let h = g - m.settled_between(lo, g, now);
    if !game.is_due(now) {
        lo <= h < after.games.len() && after.games[h] == game
    } else if game.stage < ROUNDS {
        lo <= h < after.games.len() && exists|q: usize|
            q < m.questions.len() && !game.previous_questions.contains(q) && after.games[h]
                == #[trigger] game.advanced(q, now)
    } else {
        !is_live(after.games, game.id)
    }
}

/// No more matches are settled than there are.
proof fn lemma_settled_between_bound(m: Model, lo: int, hi: int, now: i64)
    ensures
        m.settled_between(lo, hi, now) <= (if hi > lo {
            hi - lo
        } else {
            0
        }),
    decreases hi - lo,
{
    if lo < hi {
        lemma_settled_between_bound(m, lo + 1, hi, now);
    }
}

/// Polling moves every match that is due exactly once and no other, takes
/// the settled matches away and leaves the others in their order: see
/// `polled_once`. As many matches are left as were not settled.
pub proof fn theorem_polling_moves_due_matches_once(
    m: Model,
    from: int,
    now: i64,
    picks: Seq<usize>,
    g: int,
)
    requires
        m.wf(),
        0 <= from <= g < m.games.len(),
        m.picks_fit(from, now, picks),
    ensures
        polled_once(m, m.polled(from, now, picks), g, from, now),
        m.polled(from, now, picks).games.len() == m.games.len() - m.settled_between(
            from,
            m.games.len() as int,
            now,
        ),
    decreases m.games.len() - from,
{
    let game = m.games[g];
    let after = m.polled(from, now, picks);
    let first = m.games[from];
    let rest_picks = if first.is_due(now) {
        picks.drop_last()
    } else {
        picks
    };
    let rest = m.polled(from + 1, now, rest_picks);
    lemma_polling_wf(m, from + 1, now, rest_picks);
    lemma_polling_count(m, from + 1, now, rest_picks);
    assert(rest.games[from] == first);
    assert(m.game_ok(first));
    lemma_settled_between_bound(m, from + 1, g, now);
    let gone = m.settles(from, now);
    if gone {
        assert(after.games == rest.games.remove(from));
    } else if first.is_due(now) {
        assert(after.games == rest.games.update(from, first.advanced(picks.last(), now)));
    } else {
        assert(after.games == rest.games);
    }
    if g > from {
        theorem_polling_moves_due_matches_once(m, from + 1, now, rest_picks, g);
        let h0 = g - m.settled_between(from + 1, g, now);
        let h = g - m.settled_between(from, g, now);
        assert(h == if gone {
            h0 - 1
        } else {
            h0
        });
        if !game.is_due(now) {
            assert(after.games[h] == game);
        } else if game.stage < ROUNDS {
            let q = choose|q: usize|
                q < m.questions.len() && !game.previous_questions.contains(q) && rest.games[h0]
                    == #[trigger] game.advanced(q, now);
            assert(after.games[h] == game.advanced(q, now));
        } else {
            assert forall|k: int| 0 <= k < after.games.len() implies (#[trigger] after.games[k]).id
                != game.id by {
                if gone {
                    let k0 = if k < from {
                        k
                    } else {
                        k + 1
                    };
                    assert(after.games[k] == rest.games[k0]);
                } else if k != from {
                    assert(after.games[k] == rest.games[k]);
                }
            }
        }
    } else {
        if gone {
            assert forall|k: int| 0 <= k < after.games.len() implies (#[trigger] after.games[k]).id
                != game.id by {
                let k0 = if k < from {
                    k
                } else {
                    k + 1
                };
                assert(after.games[k] == rest.games[k0]);
            }
        } else if first.is_due(now) {
            assert(after.games[from] == game.advanced(picks.last(), now));
        } else {
            assert(after.games[from] == game);
        }
    }
}

/// What settling a match does to its players: each gets its win or loss and,
/// in a competitive match, the winner its rating, and each is released.
pub proof fn lemma_settle_effect(m: Model, g: int, q: usize)
    requires
        m.wf(),
        0 <= g < m.games.len(),
    ensures
        ({
            let game = m.games[g];
            let after = m.settle(g, q);
            let p1 = m.whose(game.p1);
            let p2 = m.whose(game.p2);
            &&& is_registered(after.players, game.p1)
            &&& is_registered(after.players, game.p2)
            &&& after.whose(game.p1) == released(settled(p1, p2, game.competitive))
            &&& after.whose(game.p2) == released(settled(p2, p1, game.competitive))
        }),
{
    let game = m.games[g];
    let after = m.settle(g, q);
    assert(m.game_ok(game));
    lemma_settle_wf(m, g, q);
    assert forall|k: int| 0 <= k < after.players.len() implies (#[trigger] after.players[k]).peer_id
        == m.players[k].peer_id by {}
    lemma_index_of(after.players, game.p1, index_of(m.players, game.p1));
    lemma_index_of(after.players, game.p2, index_of(m.players, game.p2));
}

/// Polling settles a match once and for all of its players: whatever other
/// matches the same poll moves, the players of a match it settles end up
/// exactly as the settlement leaves them, with their win or loss, the
/// winner's rating in a competitive match, no points, no answer given and no
/// reference to a match.
pub proof fn theorem_polling_releases_settled_players(
    m: Model,
    from: int,
    now: i64,
    picks: Seq<usize>,
    g: int,
)
    requires
        m.wf(),
        0 <= from <= g < m.games.len(),
        m.picks_fit(from, now, picks),
        m.settles(g, now),
    ensures
        ({
            let game = m.games[g];
            let after = m.polled(from, now, picks);
            let p1 = m.whose(game.p1);
            let p2 = m.whose(game.p2);
            &&& is_registered(after.players, game.p1)
            &&& is_registered(after.players, game.p2)
            &&& after.whose(game.p1) == released(settled(p1, p2, game.competitive))
            &&& after.whose(game.p2) == released(settled(p2, p1, game.competitive))
            &&& !is_live(after.games, game.id)
        }),
    decreases m.games.len() - from,
{
    let game = m.games[g];
    let after = m.polled(from, now, picks);
    let first = m.games[from];
    let rest_picks = if first.is_due(now) {
        picks.drop_last()
    } else {
        picks
    };
    let rest = m.polled(from + 1, now, rest_picks);
    assert(m.game_ok(game));
    lemma_one_match(m, game.p1);
    lemma_one_match(m, game.p2);
    lemma_polling_wf(m, from + 1, now, rest_picks);
    lemma_polling_wf(m, from, now, picks);
    theorem_polling_moves_due_matches_once(m, from, now, picks, g);
    assert(rest.games[from] == first);
    if g > from {
        theorem_polling_releases_settled_players(m, from + 1, now, rest_picks, g);
        if first.is_due(now) {
            assert(!first.has(game.p1) && !first.has(game.p2));
            lemma_move_spares_others(rest, from, picks.last(), now, game.p1);
            lemma_move_spares_others(rest, from, picks.last(), now, game.p2);
            lemma_index_of(after.players, game.p1, index_of(rest.players, game.p1));
            lemma_index_of(after.players, game.p2, index_of(rest.players, game.p2));
        }
    } else {
        assert forall|h: int|
            from + 1 <= h < m.games.len() && (#[trigger] m.games[h]).is_due(now) implies !m.games[h].has(
            game.p1,
        ) && !m.games[h].has(game.p2) by {}
        theorem_polling_spares_idle_players(m, from + 1, now, rest_picks, game.p1);
        theorem_polling_spares_idle_players(m, from + 1, now, rest_picks, game.p2);
        lemma_settle_effect(rest, from, picks.last());
    }
}

/// After polling as many matches are left as were not settled.
pub proof fn lemma_polling_count(m: Model, from: int, now: i64, picks: Seq<usize>)
    requires
        m.wf(),
        0 <= from <= m.games.len(),
        m.picks_fit(from, now, picks),
    ensures
        m.polled(from, now, picks).games.len() == m.games.len() - m.settled_between(
            from,
            m.games.len() as int,
            now,
        ),
    decreases m.games.len() - from,
{
    if from < m.games.len() {
        let first = m.games[from];
        let rest_picks = if first.is_due(now) {
            picks.drop_last()
        } else {
            picks
        };
        lemma_polling_count(m, from + 1, now, rest_picks);
        lemma_polling_wf(m, from + 1, now, rest_picks);
        let rest = m.polled(from + 1, now, rest_picks);
        assert(rest.games[from] == first);
    }
}

/// A move of a match on a question of the bank that the match has not used
/// keeps the state well formed.
pub proof fn lemma_advance_wf(m: Model, g: int, q: usize, now: i64)
    requires
        m.wf(),
        0 <= g < m.games.len(),
        q < m.questions.len(),
        !m.games[g].previous_questions.contains(q),
    ensures
        m.advance(g, q, now).wf(),
{
    if m.games[g].stage >= ROUNDS {
        lemma_settle_wf(m, g, q);
    } else {
        let after = m.advance(g, q, now);
        lemma_same_peers_wf(m, after);
    }
}

/// Pairing goes by arrival. When `a`, `b` and `c`, none of them in a match
/// or waiting, ask for the same mode in this order and its slot was empty,
/// `a` waits, `b` is matched with `a`, and `c` waits alone: no second match is
/// made and `c` holds no reference.
pub proof fn theorem_pairing_is_first_come(
    m: Model,
    a: u64,
    b: u64,
    c: u64,
    competitive: bool,
    t1: i64,
    t2: i64,
    t3: i64,
)
    requires
        m.wf(),
        m.next_game_id < u64::MAX,
        m.last_queue[slot_of(competitive)] is None,
        is_registered(m.players, a),
        is_registered(m.players, b),
        is_registered(m.players, c),
        m.match_of(a) is None,
        m.match_of(b) is None,
        m.match_of(c) is None,
        a != b,
        a != c,
        b != c,
    ensures
        ({
            let slot = slot_of(competitive);
            let m1 = m.join_queue(a, competitive, t1);
            let m2 = m1.join_queue(b, competitive, t2);
            let m3 = m2.join_queue(c, competitive, t3);
            &&& m1.join_outcome(b, competitive) is Ok
            &&& m2.join_outcome(c, competitive) is Ok
            &&& m1.last_queue[slot] == Some(a)
            &&& m1.games == m.games
            &&& m2.last_queue[slot] is None
            &&& m2.games == m.games.push(GameView::fresh(m.next_game_id, b, a, competitive, t2))
            &&& m2.whose(a).game_id == Some(m.next_game_id)
            &&& m2.whose(b).game_id == Some(m.next_game_id)
            &&& m3.last_queue[slot] == Some(c)
            &&& m3.games == m2.games
            &&& m3.whose(c).game_id is None
            &&& m3.wf()
        }),
{
    let slot = slot_of(competitive);
    let m1 = m.join_queue(a, competitive, t1);
    lemma_join_wf(m, a, competitive, t1);
    lemma_free_wf(m, a);
    let ia = index_of(m.players, a);
    let ib = index_of(m.players, b);
    let ic = index_of(m.players, c);
    assert forall|k: int| 0 <= k < m1.players.len() implies (#[trigger] m1.players[k]).peer_id
        == m.players[k].peer_id by {}
    lemma_index_of(m1.players, a, ia);
    lemma_index_of(m1.players, b, ib);
    lemma_index_of(m1.players, c, ic);
    assert(m1.games == m.games);
    assert(m1.players[ib] == m.players[ib]);
    assert(m1.players[ic] == m.players[ic]);
    assert(m1.match_of(b) is None);
    assert(m1.join_pairs(b, competitive));
    let m2 = m1.join_queue(b, competitive, t2);
    lemma_join_wf(m1, b, competitive, t2);
    lemma_free_wf(m1, b);
    let free = m1.with_player(b, PlayerView { game_id: None, ..m1.whose(b) });
    lemma_pair_ready(m1, b, competitive, t2);
    assert forall|k: int| 0 <= k < m2.players.len() implies (#[trigger] m2.players[k]).peer_id
        == m.players[k].peer_id by {}
    lemma_index_of(m2.players, a, ia);
    lemma_index_of(m2.players, b, ib);
    lemma_index_of(m2.players, c, ic);
    lemma_index_of(free.players, a, ia);
    lemma_index_of(free.players, b, ib);
    assert(m2.players[ic] == m.players[ic]);
    assert(m2.games == m.games.push(GameView::fresh(m.next_game_id, b, a, competitive, t2)));
    assert(m2.match_of(c) is None) by {
        lemma_free_wf(m, c);
        assert(m.plays_nowhere(c));
        if m2.match_of(c) is Some {
            let g = m2.match_of(c).unwrap();
            assert(m2.games[g].has(c));
            if g < m.games.len() {
                assert(m.games[g].has(c));
            }
        }
    }
    lemma_join_wf(m2, c, competitive, t3);
}

/// A match that is due has waited its time: `START_DELAY_SECS` since it was
/// made if it has not started, `ROUND_SECS` since the start of its round if it
/// has.
pub proof fn theorem_due_match_has_waited(game: GameView, now: i64)
    requires
        game.is_due(now),
    ensures
        !game.started ==> now - game.start_timer >= START_DELAY_SECS * NANOS_PER_SEC,
        game.started ==> now - game.stage_timer >= ROUND_SECS * NANOS_PER_SEC,
{
}

/// A match moves on by one stage at a time and is settled after `ROUNDS`
/// rounds: below that stage the match stays where it stands, one stage
/// further, on the question drawn, with its round starting now; at that stage
/// the match is gone and every other match stays.
pub proof fn theorem_match_runs_its_stages(m: Model, g: int, q: usize, now: i64)
    requires
        m.wf(),
        0 <= g < m.games.len(),
    ensures
        m.games[g].stage < ROUNDS ==> {
            let after = m.advance(g, q, now);
            &&& after.games.len() == m.games.len()
            &&& after.games[g].id == m.games[g].id
            &&& after.games[g].stage == m.games[g].stage + 1
            &&& after.games[g].started
            &&& after.games[g].question == Some(q)
            &&& after.games[g].stage_timer == now
            &&& forall|h: int| 0 <= h < m.games.len() && h != g ==> after.games[h] == m.games[h]
        },
        m.games[g].stage >= ROUNDS ==> {
            let after = m.advance(g, q, now);
            &&& m.games[g].stage == ROUNDS
            &&& after.games == m.games.remove(g)
            &&& !is_live(after.games, m.games[g].id)
        },
{
    if m.games[g].stage >= ROUNDS {
        let after = m.advance(g, q, now);
    }
}

/// Unless a round is cut short, a match is settled no sooner than
/// `START_DELAY_SECS` and `ROUNDS` rounds of `ROUND_SECS` after it was made.
/// If a match made at `t0` moves on at `t1`, `t2`, `t3` and `t4`, each time
/// because it is due, then the first three moves take it through the rounds
/// 1, 2 and 3, none of them settles it, the third comes at least 33 seconds
/// after `t0`, and the fourth, at least 48 seconds after `t0`, settles it.
pub proof fn theorem_match_takes_its_time(
    m: Model,
    g: int,
    t0: i64,
    t1: i64,
    t2: i64,
    t3: i64,
    t4: i64,
    q1: usize,
    q2: usize,
    q3: usize,
    q4: usize,
)
    requires
        m.wf(),
        0 <= g < m.games.len(),
        m.games[g].stage == 0,
        m.games[g].start_timer == t0,
        m.games[g].is_due(t1),
        m.advance(g, q1, t1).games[g].is_due(t2),
        m.advance(g, q1, t1).advance(g, q2, t2).games[g].is_due(t3),
        m.advance(g, q1, t1).advance(g, q2, t2).advance(g, q3, t3).games[g].is_due(t4),
    ensures
        ({
            let m1 = m.advance(g, q1, t1);
            let m2 = m1.advance(g, q2, t2);
            let m3 = m2.advance(g, q3, t3);
            let m4 = m3.advance(g, q4, t4);
            let id = m.games[g].id;
            &&& m1.games[g].id == id && m1.games[g].stage == 1
            &&& m2.games[g].id == id && m2.games[g].stage == 2
            &&& m3.games[g].id == id && m3.games[g].stage == 3
            &&& t3 - t0 >= (START_DELAY_SECS + ROUND_SECS + ROUND_SECS) * NANOS_PER_SEC
            &&& t4 - t0 >= (START_DELAY_SECS + ROUNDS * ROUND_SECS) * NANOS_PER_SEC
            &&& !is_live(m4.games, id)
        }),
{
    assert(m.game_ok(m.games[g]));
    let m1 = m.advance(g, q1, t1);
    let m2 = m1.advance(g, q2, t2);
    let m3 = m2.advance(g, q3, t3);
    let m4 = m3.advance(g, q4, t4);
    assert(m1.games[g].stage == 1);
    assert(m2.games[g].stage == 2);
    assert(m3.games[g].stage == 3);
    assert(m4.games == m3.games.remove(g));
    assert(m3.games.len() == m.games.len());
    assert forall|h: int| 0 <= h < m3.games.len() && h != g implies (#[trigger] m3.games[h]).id
        != m.games[g].id by {
        assert(m3.games[h] == m.games[h]);
    }
    assert forall|h: int| 0 <= h < m4.games.len() implies (#[trigger] m4.games[h]).id != m.games[g].id by {
        let h0 = if h < g {
            h
        } else {
            h + 1
        };
        assert(m4.games[h] == m3.games[h0]);
    }
}

/// Once both players have answered a round within its first
/// `EARLY_ADVANCE_SECS` seconds, the match is due exactly from three seconds
/// after the second answer on.
pub proof fn theorem_both_answered_leaves_three_seconds(
    m: Model,
    peer: u64,
    answer_index: i32,
    now: i64,
    later: i64,
)
    requires
        m.wf(),
        is_registered(m.players, peer),
        m.answer_outcome(peer) is Ok,
        m.games[m.match_of(peer).unwrap()].started,
        m.whose(m.games[m.match_of(peer).unwrap()].opponent(peer)).answered,
        elapsed_secs(m.games[m.match_of(peer).unwrap()].stage_timer, now) < EARLY_ADVANCE_SECS,
        now - EARLY_ADVANCE_SECS * NANOS_PER_SEC >= i64::MIN,
    ensures
        m.submit_answer(peer, answer_index, now).games[m.match_of(peer).unwrap()].is_due(later) <==> later
            - now >= (ROUND_SECS - EARLY_ADVANCE_SECS) * NANOS_PER_SEC,
{
}

/// A right answer given `t` whole seconds into the round adds `FULL_POINTS - t`
/// points, a wrong one adds none, and a second answer to the same question is
/// turned down and changes nothing.
pub proof fn theorem_answers_score_once(
    m: Model,
    peer: u64,
    answer_index: i32,
    now: i64,
    again: i32,
    later: i64,
)
    requires
        m.wf(),
        is_registered(m.players, peer),
        m.answer_outcome(peer) is Ok,
    ensures
        ({
            let g = m.match_of(peer).unwrap();
            let t = elapsed_secs(m.games[g].stage_timer, now);
            let before = m.whose(peer).points;
            let after = m.submit_answer(peer, answer_index, now);
            &&& after.whose(peer).answered
            &&& answer_index == m.right_answer(g) ==> after.whose(peer).points == clamp_i32(
                before + FULL_POINTS - t,
            )
            &&& answer_index == m.right_answer(g) && i32::MIN <= before + FULL_POINTS - t <= i32::MAX
                ==> after.whose(peer).points == before + FULL_POINTS - t
            &&& answer_index != m.right_answer(g) ==> after.whose(peer).points == before
            &&& after.answer_outcome(peer) == Err::<(), Fault>(Fault::AnsweredTwice)
            &&& after.submit_answer(peer, again, later) == after
        }),
{
    let i = index_of(m.players, peer);
    let after = m.submit_answer(peer, answer_index, now);
    lemma_index_of(after.players, peer, i);
}

/// What an answer that is accepted does, and nothing else: the connection
/// stays; the player who answers has answered and, if the answer is right,
/// has `FULL_POINTS` less the whole seconds of the round more points, within
/// the ends of `i32`; every other player, the opponent among them, is as it
/// was; the match keeps its stage, its question and its used questions, and
/// its round is taken to have started `EARLY_ADVANCE_SECS` before now exactly
/// if the opponent has answered and fewer than `EARLY_ADVANCE_SECS` whole
/// seconds of the round have passed, whoever of the two answered first; every
/// other match, the slots and what waits to be stored are as they were. One
/// document is posted, to the player who answers, with the index of the
/// right option.
pub proof fn theorem_accepted_answer(m: Model, peer: u64, answer_index: i32, now: i64)
    requires
        m.wf(),
        is_registered(m.players, peer),
        m.answer_outcome(peer) is Ok,
    ensures
        ({
            let command = Command::SubmitAnswer { answer_index };
            let g = m.match_of(peer).unwrap();
            let game = m.games[g];
            let other = game.opponent(peer);
            let t = elapsed_secs(game.stage_timer, now);
            let p = m.whose(peer);
            let after = m.begin(peer, command, now);
            &&& m.begin_step(peer, command) == Step::Done
            &&& after.wf()
            &&& after.players.len() == m.players.len()
            &&& forall|k: int|
                0 <= k < m.players.len() && k != index_of(m.players, peer)
                    ==> #[trigger] after.players[k] == m.players[k]
            &&& is_registered(after.players, peer)
            &&& after.whose(peer) == (PlayerView {
                points: if answer_index == m.right_answer(g) {
                    clamp_i32(p.points + FULL_POINTS - t)
                } else {
                    p.points
                },
                answered: true,
                ..p
            })
            &&& other != peer
            &&& is_registered(after.players, other)
            &&& after.whose(other) == m.whose(other)
            &&& after.games.len() == m.games.len()
            &&& forall|h: int| 0 <= h < m.games.len() && h != g ==> #[trigger] after.games[h] == m.games[h]
            &&& after.games[g] == (GameView {
                stage_timer: if m.whose(other).answered && t < EARLY_ADVANCE_SECS {
                    retro_dated(now)
                } else {
                    game.stage_timer
                },
                ..game
            })
            &&& after.last_queue == m.last_queue
            &&& after.saves == m.saves
            &&& after.questions == m.questions
            &&& after.packets == m.post(peer, answer_fields(m.right_answer(g))).packets
            &&& after.unsent == m.post(peer, answer_fields(m.right_answer(g))).unsent
        }),
{
    let g = m.match_of(peer).unwrap();
    let game = m.games[g];
    let other = game.opponent(peer);
    let after = m.submit_answer(peer, answer_index, now);
    let i = index_of(m.players, peer);
    let j = index_of(m.players, other);
    assert(m.game_ok(game));
    lemma_same_peers_wf(m, after);
    lemma_index_of(after.players, peer, i);
    lemma_index_of(after.players, other, j);
}

/// A match is settled once. Settling removes it and nothing else from the live
/// matches, its id is never given out again, and both of its players are in no
/// match afterwards: no points, no answer given, no reference to a match.
/// Their records are queued for storage, first player first. Both stay
/// registered, play and wait nowhere, and so may ask to be matched again; the
/// slots stay as they were, and so does every other player.
pub proof fn theorem_settlement_happens_once(m: Model, g: int, q: usize, now: i64)
    requires
        m.wf(),
        0 <= g < m.games.len(),
        m.games[g].stage >= ROUNDS,
    ensures
        ({
            let game = m.games[g];
            let after = m.advance(g, q, now);
            &&& after.wf()
            &&& after.games == m.games.remove(g)
            &&& !is_live(after.games, game.id)
            &&& after.next_game_id > game.id
            &&& after.whose(game.p1).points == 0
            &&& !after.whose(game.p1).answered
            &&& after.whose(game.p1).game_id is None
            &&& after.whose(game.p2).points == 0
            &&& !after.whose(game.p2).answered
            &&& after.whose(game.p2).game_id is None
            &&& after.saves.len() == m.saves.len() + 2
            &&& after.saves[m.saves.len() as int].id == m.whose(game.p1).id
            &&& after.saves[m.saves.len() as int + 1].id == m.whose(game.p2).id
            &&& is_registered(after.players, game.p1)
            &&& is_registered(after.players, game.p2)
            &&& after.plays_nowhere(game.p1)
            &&& after.plays_nowhere(game.p2)
            &&& after.waits_nowhere(game.p1)
            &&& after.waits_nowhere(game.p2)
            &&& after.last_queue == m.last_queue
            &&& after.players.len() == m.players.len()
            &&& forall|k: int|
                0 <= k < m.players.len() && k != index_of(m.players, game.p1) && k != index_of(
                    m.players,
                    game.p2,
                ) ==> #[trigger] after.players[k] == m.players[k]
        }),
{
    let game = m.games[g];
    let after = m.advance(g, q, now);
    lemma_settle_wf(m, g, q);
    theorem_match_runs_its_stages(m, g, q, now);
    let i1 = index_of(m.players, game.p1);
    let i2 = index_of(m.players, game.p2);
    lemma_index_of(after.players, game.p1, i1);
    lemma_index_of(after.players, game.p2, i2);
}

/// When a player of a match disconnects, the match is discarded and the other
/// player is left as it was: it keeps its points, its answer and its
/// reference to the match, which no longer leads anywhere, so that no round
/// reaches it and an answer of it finds no match.
pub proof fn theorem_abandoned_player_keeps_its_reference(m: Model, g: int, peer: u64)
    requires
        m.wf(),
        0 <= g < m.games.len(),
        m.games[g].has(peer),
    ensures
        ({
            let other = m.games[g].opponent(peer);
            let after = m.remove_player(peer);
            &&& after.wf()
            &&& is_registered(after.players, other)
            &&& after.whose(other) == m.whose(other)
            &&& !is_live(after.games, m.games[g].id)
            &&& forall|h: int| 0 <= h < after.games.len() ==> !(#[trigger] after.games[h]).has(peer)
            &&& m.whose(other).game_id == Some(m.games[g].id) ==> after.match_of(other) is None
        }),
{
    let game = m.games[g];
    let other = game.opponent(peer);
    let after = m.remove_player(peer);
    lemma_remove_player_wf(m, peer);
    crate::state::lemma_games_without(m.games, peer);
    let i = index_of(m.players, peer);
    let j = index_of(m.players, other);
    let j1 = if j < i { j } else { j - 1 };
    lemma_index_of(after.players, other, j1);
}

/// Polling leaves alone every player who is in no match: it stays as it was,
/// with its points, its record and its rating, and no document is queued for
/// it.
pub proof fn theorem_polling_spares_unmatched_players(
    m: Model,
    now: i64,
    picks: Seq<usize>,
    peer: u64,
)
    requires
        m.wf(),
        m.picks_fit(0, now, picks),
        is_registered(m.players, peer),
        m.plays_nowhere(peer),
    ensures
        is_registered(m.polled(0, now, picks).players, peer),
        m.polled(0, now, picks).whose(peer) == m.whose(peer),
        m.polled(0, now, picks).plays_nowhere(peer),
        m.packets.is_prefix_of(m.polled(0, now, picks).packets),
        forall|k: int|
            m.packets.len() <= k < m.polled(0, now, picks).packets.len() ==> (#[trigger] m.polled(
                0,
                now,
                picks,
            ).packets[k]).0 != peer,
{
    let after = m.polled(0, now, picks);
    theorem_polling_spares_idle_players(m, 0, now, picks, peer);
    lemma_polling_wf(m, 0, now, picks);
    assert forall|h: int| 0 <= h < after.games.len() implies !(#[trigger] after.games[h]).has(
        peer,
    ) by {
        if after.games[h].has(peer) {
            lemma_one_match(after, peer);
            assert(after.whose(peer).game_id == Some(after.games[h].id));
            lemma_polling_members(m, 0, now, picks, h);
        }
    }
}

/// Every match that is live after polling was live before, with the same id
/// and the same players.
pub proof fn lemma_polling_members(m: Model, from: int, now: i64, picks: Seq<usize>, h: int)
    requires
        m.wf(),
        0 <= from <= m.games.len(),
        m.picks_fit(from, now, picks),
        0 <= h < m.polled(from, now, picks).games.len(),
    ensures
        exists|g: int|
            0 <= g < m.games.len() && (#[trigger] m.games[g]).id == m.polled(
                from,
                now,
                picks,
            ).games[h].id && m.games[g].p1 == m.polled(from, now, picks).games[h].p1 && m.games[g].p2
                == m.polled(from, now, picks).games[h].p2,
    decreases m.games.len() - from,
{
    let after = m.polled(from, now, picks);
    if from < m.games.len() {
        if m.games[from].is_due(now) {
            let rest = m.polled(from + 1, now, picks.drop_last());
            lemma_polling_wf(m, from + 1, now, picks.drop_last());
            if rest.games[from].stage >= ROUNDS {
                let h0 = if h < from {
                    h
                } else {
                    h + 1
                };
                assert(after.games[h] == rest.games[h0]);
                lemma_polling_members(m, from + 1, now, picks.drop_last(), h0);
            } else {
                assert(after.games[h].id == rest.games[h].id);
                lemma_polling_members(m, from + 1, now, picks.drop_last(), h);
            }
        } else {
            lemma_polling_members(m, from + 1, now, picks, h);
        }
    } else {
        assert(m.games[h].id == after.games[h].id);
    }
}

/// After a player of a match has disconnected, polling leaves the other
/// player alone: whatever time has passed, it stays as it was, reference
/// included, and no document is queued for it. Where no match at all is due,
/// polling changes nothing, so nothing is queued for storage either.
pub proof fn theorem_abandoned_player_is_left_alone(
    m: Model,
    g: int,
    peer: u64,
    now: i64,
    picks: Seq<usize>,
)
    requires
        m.wf(),
        0 <= g < m.games.len(),
        m.games[g].has(peer),
        m.remove_player(peer).picks_fit(0, now, picks),
    ensures
        ({
            let other = m.games[g].opponent(peer);
            let left = m.remove_player(peer);
            let after = left.polled(0, now, picks);
            &&& left.plays_nowhere(other)
            &&& is_registered(after.players, other)
            &&& after.whose(other) == m.whose(other)
            &&& left.packets == m.packets
            &&& m.packets.is_prefix_of(after.packets)
            &&& forall|k: int|
                m.packets.len() <= k < after.packets.len() ==> (#[trigger] after.packets[k]).0 != other
            &&& left.due_from(0, now) == 0 ==> after == left
        }),
{
    let other = m.games[g].opponent(peer);
    let left = m.remove_player(peer);
    theorem_abandoned_player_keeps_its_reference(m, g, peer);
    lemma_one_match(m, other);
    crate::state::lemma_games_without(m.games, peer);
    assert forall|h: int| 0 <= h < left.games.len() implies !(#[trigger] left.games[h]).has(other) by {
        let j = choose|j: int| h <= j < m.games.len() && m.games[j] == left.games[h];
        if left.games[h].has(other) {
            assert(m.games[j].has(other) && m.games[g].has(other));
            assert(j == g);
        }
    }
    theorem_polling_spares_unmatched_players(left, now, picks, other);
    if left.due_from(0, now) == 0 {
        theorem_polling_waits_with_the_matches(left, 0, now, picks);
    }
}

/// Posting a document puts it behind everything queued before, or, where it
/// cannot be encoded, leaves the queue as it is.
pub proof fn theorem_posting_appends(q: Seq<(u64, Seq<u8>)>, peer: u64, f: Fields)
    ensures
        q.is_prefix_of(sent(q, peer, f)),
        sent(q, peer, f).len() <= q.len() + 1,
        sent(q, peer, f).len() == q.len() + 1 ==> sent(q, peer, f).last().0 == peer,
{
}

/// No document is lost without a trace: posting one either queues it for its
/// connection, behind everything queued before, or notes the connection as
/// one whose document was not sent. Nothing else changes.
pub proof fn theorem_posting_is_never_silent(m: Model, peer: u64, f: Fields)
    ensures
        ({
            let after = m.post(peer, f);
            &&& encodes(f) ==> after.unsent == m.unsent && after.packets.len() == m.packets.len() + 1
                && after.packets.last().0 == peer && m.packets.is_prefix_of(after.packets)
            &&& !encodes(f) ==> after.packets == m.packets && after.unsent == m.unsent.push(peer)
            &&& after.games == m.games
            &&& after.players == m.players
            &&& after.saves == m.saves
            &&& after.last_queue == m.last_queue
        }),
{
}

/// No request to join the queue and no answer takes a document out of the
/// outbound queue or moves one: what was queued stays in front, in its order.
pub proof fn theorem_requests_keep_the_queue(
    m: Model,
    peer: u64,
    competitive: bool,
    answer_index: i32,
    now: i64,
)
    ensures
        m.packets.is_prefix_of(m.join_queue(peer, competitive, now).packets),
        m.packets.is_prefix_of(m.submit_answer(peer, answer_index, now).packets),
        m.packets.is_prefix_of(m.add_player(peer).packets),
        m.packets.is_prefix_of(m.remove_player(peer).packets),
{
}

/// No command takes a document out of the outbound queue or moves one.
pub proof fn theorem_commands_keep_the_queue(m: Model, peer: u64, command: Command, now: i64)
    ensures
        m.packets.is_prefix_of(m.begin(peer, command, now).packets),
{
    match command {
        Command::JoinQueue { competitive } => {
            theorem_requests_keep_the_queue(m, peer, competitive, 0, now);
        },
        Command::SubmitAnswer { answer_index } => {
            theorem_requests_keep_the_queue(m, peer, true, answer_index, now);
        },
        _ => {},
    }
}

/// No answer of storage takes a document out of the outbound queue or moves
/// one.
pub proof fn theorem_replies_keep_the_queue(m: Model, peer: u64, request: Request, reply: Reply)
    ensures
        m.packets.is_prefix_of(m.resumed(peer, request, reply).packets),
{
    let after = m.resumed(peer, request, reply);
    assert(after.packets == m.packets || exists|f: Fields| after.packets == sent(m.packets, peer, f));
    if after.packets != m.packets {
        let f = choose|f: Fields| after.packets == sent(m.packets, peer, f);
        theorem_posting_appends(m.packets, peer, f);
    }
}

/// No move of a match takes a document out of the outbound queue or moves one.
pub proof fn theorem_rounds_keep_the_queue(m: Model, g: int, q: usize, now: i64)
    ensures
        m.packets.is_prefix_of(m.advance(g, q, now).packets),
{
}

/// Polling the matches takes no document out of the outbound queue and moves
/// none.
pub proof fn theorem_polling_keeps_the_queue(m: Model, from: int, now: i64, picks: Seq<usize>)
    ensures
        m.packets.is_prefix_of(m.polled(from, now, picks).packets),
    decreases m.games.len() - from,
{
    if 0 <= from < m.games.len() {
        if m.games[from].is_due(now) {
            let rest = m.polled(from + 1, now, picks.drop_last());
            theorem_polling_keeps_the_queue(m, from + 1, now, picks.drop_last());
            theorem_rounds_keep_the_queue(rest, from, picks.last(), now);
        } else {
            theorem_polling_keeps_the_queue(m, from + 1, now, picks);
        }
    }
}

} // verus!
