//! The server's state: registry of players, matchmaking slots, live matches,
//! question bank and outbound queue.

use vstd::prelude::*;
use crate::database::RankUpdate;
use crate::game::{Game, GameView};
use crate::player::{encodes, queue_view, sent, Player, PlayerView};
use crate::wire::Fields;

verus! {

/// An encoded document addressed to a connection.
pub type PacketSent = (u64, Vec<u8>);

/// One question of the bank: the prompt, four options and the index of the
/// right one.
#[derive(Clone, Debug, Default)]
pub struct GameQuestion {
    pub question: String,
    pub answer_option_1: String,
    pub answer_option_2: String,
    pub answer_option_3: String,
    pub answer_option_4: String,
    pub answer_index: i32,
}

/// Fewest questions a bank may hold: a match draws one for each of its rounds
/// and one more when it is settled, and never repeats one.
pub const MIN_QUESTIONS: usize = 4;

/// Everything the server keeps between two events.
pub struct State {
    /// Live matches, oldest first.
    pub games: Vec<Game>,
    /// Connected players in the order in which they connected; no two share a
    /// connection handle. The order decides which session shows for a friend
    /// who is connected more than once, so the registry is a sequence and not
    /// a hash map, whose order of walking is not fixed.
    pub players: Vec<Player>,
    /// Documents waiting to be delivered, oldest first.
    pub packets: Vec<PacketSent>,
    /// Ratings and records waiting to be stored, oldest first.
    pub saves: Vec<RankUpdate>,
    /// The connections a document was meant for that could not be encoded and
    /// so was not queued, oldest first.
    pub unsent: Vec<u64>,
    /// The question bank.
    pub questions: Vec<GameQuestion>,
    /// The player waiting for a casual match, then the one waiting for a
    /// competitive match.
    pub last_queue: [Option<u64>; 2],
    /// The id the next match will get.
    pub next_game_id: u64,
}

/// The state as plain values.
pub struct Model {
    pub games: Seq<GameView>,
    pub players: Seq<PlayerView>,
    pub packets: Seq<(u64, Seq<u8>)>,
    pub saves: Seq<RankUpdate>,
    pub unsent: Seq<u64>,
    pub questions: Seq<GameQuestion>,
    pub last_queue: Seq<Option<u64>>,
    pub next_game_id: u64,
}

/// The players as plain values.
pub open spec fn players_view(players: Seq<Player>) -> Seq<PlayerView> {
    players.map_values(|p: Player| p@)
}

/// The matches as plain values.
pub open spec fn games_view(games: Seq<Game>) -> Seq<GameView> {
    games.map_values(|g: Game| g@)
}

impl View for State {
    type V = Model;

    open spec fn view(&self) -> Model {
        Model {
            games: games_view(self.games@),
            players: players_view(self.players@),
            packets: queue_view(self.packets@),
            saves: self.saves@,
            unsent: self.unsent@,
            questions: self.questions@,
            last_queue: self.last_queue@,
            next_game_id: self.next_game_id,
        }
    }
}

/// No two players share a connection handle.
pub open spec fn distinct_peers(players: Seq<PlayerView>) -> bool {
    forall|i: int, j: int|
        0 <= i < players.len() && 0 <= j < players.len() && i != j ==> (#[trigger] players[i]).peer_id
            != (#[trigger] players[j]).peer_id
}

/// Whether a player is registered under `peer`.
pub open spec fn is_registered(players: Seq<PlayerView>, peer: u64) -> bool {
    exists|i: int| 0 <= i < players.len() && (#[trigger] players[i]).peer_id == peer
}

/// Where the player registered under `peer` stands.
pub open spec fn index_of(players: Seq<PlayerView>, peer: u64) -> int {
    choose|i: int| 0 <= i < players.len() && (#[trigger] players[i]).peer_id == peer
}

/// The matches of `games` in which `peer` does not play, in their order.
pub open spec fn games_without(games: Seq<GameView>, peer: u64) -> Seq<GameView>
    decreases games.len(),
{
    if games.len() == 0 {
        games
    } else if games.last().has(peer) {
        games_without(games.drop_last(), peer)
    } else {
        games_without(games.drop_last(), peer).push(games.last())
    }
}

/// The slot of the mode: 0 for casual, 1 for competitive.
pub open spec fn slot_of(competitive: bool) -> int {
    if competitive {
        1
    } else {
        0
    }
}

impl Model {
    /// The player registered under `peer`.
    pub open spec fn whose(self, peer: u64) -> PlayerView {
        self.players[index_of(self.players, peer)]
    }

    /// The state with `p` in place of the player registered under `peer`.
    pub open spec fn with_player(self, peer: u64, p: PlayerView) -> Model {
        Model { players: self.players.update(index_of(self.players, peer), p), ..self }
    }

    /// What holds of a match of this state: it is well formed, its id has
    /// been given out, and both of its players are registered and hold the
    /// reference to it.
    pub open spec fn game_ok(self, g: GameView) -> bool {
        &&& g.wf(self.questions.len())
        &&& is_registered(self.players, g.p1)
        &&& is_registered(self.players, g.p2)
        &&& g.id < self.next_game_id
        &&& self.whose(g.p1).game_id == Some(g.id)
        &&& self.whose(g.p2).game_id == Some(g.id)
    }

    /// No player that waits in a slot holds a reference to a match.
    pub open spec fn waiting_hold_no_match(self) -> bool {
        forall|s: int|
            0 <= s < 2 ==> match #[trigger] self.last_queue[s] {
                Some(waiting) => is_registered(self.players, waiting) ==> self.whose(
                    waiting,
                ).game_id is None,
                None => true,
            }
    }

    /// What holds of the state between any two operations. Since the players
    /// of a match hold the reference to it and ids are given out once, a
    /// player is in at most one match; since a waiting player holds no
    /// reference, it is in none.
    pub open spec fn wf(self) -> bool {
        &&& self.questions.len() >= MIN_QUESTIONS
        &&& self.last_queue.len() == 2
        &&& distinct_peers(self.players)
        &&& self.waiting_hold_no_match()
        &&& forall|g: int| 0 <= g < self.games.len() ==> self.game_ok(#[trigger] self.games[g])
        &&& forall|g: int, h: int|
            0 <= g < self.games.len() && 0 <= h < self.games.len() && g != h ==> (
            #[trigger] self.games[g]).id != (#[trigger] self.games[h]).id
    }

    /// The state right after start-up.
    pub open spec fn initial(questions: Seq<GameQuestion>) -> Model {
        Model {
            games: Seq::empty(),
            players: Seq::empty(),
            packets: Seq::empty(),
            saves: Seq::empty(),
            unsent: Seq::empty(),
            questions,
            last_queue: seq![None, None],
            next_game_id: 0,
        }
    }

    /// The state after a document with the entries `f` was posted to `peer`:
    /// the document is queued behind the others, or, where it cannot be
    /// encoded, `peer` is noted as one whose document was not sent.
    pub open spec fn post(self, peer: u64, f: Fields) -> Model {
        if encodes(f) {
            Model { packets: sent(self.packets, peer, f), ..self }
        } else {
            Model { unsent: self.unsent.push(peer), ..self }
        }
    }

    /// A connection was opened: whoever stood under `peer` is removed as by a
    /// closed connection, and a fresh player is registered under `peer`,
    /// behind all others.
    pub open spec fn add_player(self, peer: u64) -> Model {
        let left = self.remove_player(peer);
        Model { players: left.players.push(PlayerView::fresh(peer)), ..left }
    }

    /// A connection was closed: its player leaves the registry, the slots it
    /// waited in are cleared and its matches are discarded. The opponents keep
    /// whatever they held.
    pub open spec fn remove_player(self, peer: u64) -> Model {
        Model {
            players: if is_registered(self.players, peer) {
                self.players.remove(index_of(self.players, peer))
            } else {
                self.players
            },
            last_queue: self.last_queue.map_values(
                |s: Option<u64>|
                    if s == Some(peer) {
                        None
                    } else {
                        s
                    },
            ),
            games: games_without(self.games, peer),
            ..self
        }
    }

    /// Whether `peer` plays in no live match.
    pub open spec fn plays_nowhere(self, peer: u64) -> bool {
        forall|g: int| 0 <= g < self.games.len() ==> !(#[trigger] self.games[g]).has(peer)
    }

    /// Whether `peer` waits in no slot.
    pub open spec fn waits_nowhere(self, peer: u64) -> bool {
        forall|s: int| 0 <= s < self.last_queue.len() ==> #[trigger] self.last_queue[s] != Some(peer)
    }

    /// A match between `p1` and `p2` was created at `now`: it is the youngest
    /// match, it has the next id, and both players hold the reference to it.
    pub open spec fn add_game(self, p1: u64, p2: u64, competitive: bool, now: i64) -> Model {
        let id = self.next_game_id;
        let i = index_of(self.players, p1);
        let j = index_of(self.players, p2);
        Model {
            games: self.games.push(GameView::fresh(id, p1, p2, competitive, now)),
            players: self.players.update(i, PlayerView { game_id: Some(id), ..self.players[i] }).update(
                j,
                PlayerView { game_id: Some(id), ..self.players[j] },
            ),
            next_game_id: (id + 1) as u64,
            ..self
        }
    }
}

/// Notes `peer_id` as a connection whose document was not sent, unless the
/// document was queued.
pub fn note_unsent(unsent: &mut Vec<u64>, peer_id: u64, queued: bool)
    ensures
        final(unsent)@ == (if queued {
            old(unsent)@
        } else {
            old(unsent)@.push(peer_id)
        }),
{
    if !queued {
        unsent.push(peer_id);
    }
}

/// Under distinct handles the player of `peer` stands where any player with
/// that handle stands.
pub proof fn lemma_index_of(players: Seq<PlayerView>, peer: u64, i: int)
    requires
        distinct_peers(players),
        0 <= i < players.len(),
        players[i].peer_id == peer,
    ensures
        is_registered(players, peer),
        index_of(players, peer) == i,
{
}

impl State {
    /// Whether the state is well formed.
    pub open spec fn wf(&self) -> bool {
        self@.wf()
    }

    /// The state of a server that has just loaded `questions`.
    pub fn new(questions: Vec<GameQuestion>) -> (state: State)
        requires
            questions@.len() >= MIN_QUESTIONS,
        ensures
            state@ == Model::initial(questions@),
            state.wf(),
    {
        let state = State {
            questions,
            games: Vec::new(),
            players: Vec::new(),
            packets: Vec::new(),
            saves: Vec::new(),
            unsent: Vec::new(),
            last_queue: [None, None],
            next_game_id: 0,
        };
        assert(state@.games =~= Seq::empty());
        assert(state@.players =~= Seq::empty());
        assert(state@.packets =~= Seq::empty());
        state
    }

    /// Where the player registered under `peer_id` stands in `players`.
    pub fn find_player(&self, peer_id: u64) -> (r: Option<usize>)
        ensures
            match r {
                Some(i) => i < self@.players.len() && self@.players[i as int].peer_id == peer_id,
                None => !is_registered(self@.players, peer_id),
            },
            self.wf() && r is Some ==> r.unwrap() == index_of(self@.players, peer_id),
    {
        let mut i: usize = 0;
        while i < self.players.len()
            invariant
                i <= self.players@.len(),
                forall|j: int| 0 <= j < i ==> (#[trigger] self@.players[j]).peer_id != peer_id,
            decreases self.players@.len() - i,
        {
            if self.players[i].peer_id == peer_id {
                proof {
                    if self.wf() {
                        lemma_index_of(self@.players, peer_id, i as int);
                    }
                }
                return Some(i);
            }
            i += 1;
        }
        None
    }

    /// Registers a fresh player under `peer_id`, in place of whoever stood
    /// there.
    pub fn add_player(&mut self, peer_id: u64)
        requires
            old(self).wf(),
        ensures
            final(self)@ == old(self)@.add_player(peer_id),
            final(self).wf(),
    {
        self.remove_player(peer_id);
        self.players.push(Player::new(peer_id));
        proof {
            let left = old(self)@.remove_player(peer_id);
            assert(self@.players =~= left.players.push(PlayerView::fresh(peer_id)));
            lemma_registered_after_add(old(self)@, peer_id);
        }
    }

    /// The player registered under `peer_id`.
    pub fn get_player(&self, peer_id: u64) -> (r: Option<&Player>)
        ensures
            match r {
                Some(p) => exists|i: int|
                    0 <= i < self@.players.len() && #[trigger] self.players@[i] == *p && p.peer_id
                        == peer_id,
                None => !is_registered(self@.players, peer_id),
            },
            self.wf() && r is Some ==> r.unwrap()@ == self@.players[index_of(self@.players, peer_id)],
    {
        match self.find_player(peer_id) {
            Some(i) => Some(&self.players[i]),
            None => None,
        }
    }

    /// Creates a match between `p1` and `p2`, gives both the reference to it
    /// and returns its id.
    pub fn add_game(&mut self, p1: u64, p2: u64, competitive: bool, now: i64) -> (id: u64)
        requires
            old(self).wf(),
            old(self).next_game_id < u64::MAX,
            p1 != p2,
            is_registered(old(self)@.players, p1),
            is_registered(old(self)@.players, p2),
            old(self)@.plays_nowhere(p1),
            old(self)@.plays_nowhere(p2),
            old(self)@.waits_nowhere(p1),
            old(self)@.waits_nowhere(p2),
        ensures
            final(self)@ == old(self)@.add_game(p1, p2, competitive, now),
            id == old(self).next_game_id,
            final(self).wf(),
    {
        let id = self.next_game_id;
        let i = match self.find_player(p1) {
            Some(i) => i,
            None => vstd::pervasive::unreached(),
        };
        let j = match self.find_player(p2) {
            Some(j) => j,
            None => vstd::pervasive::unreached(),
        };
        self.games.push(Game::new(id, p1, p2, competitive, now));
        self.players[i].game_id = Some(id);
        self.players[j].game_id = Some(id);
        self.next_game_id = id + 1;
        proof {
            let before = old(self)@;
            assert(self@.games =~= before.games.push(GameView::fresh(id, p1, p2, competitive, now)));
            assert(self@.players =~= before.players.update(
                i as int,
                PlayerView { game_id: Some(id), ..before.players[i as int] },
            ).update(j as int, PlayerView { game_id: Some(id), ..before.players[j as int] }));
            lemma_add_game_wf(before, p1, p2, competitive, now);
        }
        id
    }

    /// Forgets the player registered under `peer_id`, with the slots it waited
    /// in and the matches it played in.
    pub fn remove_player(&mut self, peer_id: u64)
        requires
            old(self).wf(),
        ensures
            final(self)@ == old(self)@.remove_player(peer_id),
            final(self).wf(),
    {
        match self.find_player(peer_id) {
            Some(i) => {
                self.players.remove(i);
            },
            None => {},
        }
        if self.last_queue[0] == Some(peer_id) {
            self.last_queue[0] = None;
        }
        if self.last_queue[1] == Some(peer_id) {
            self.last_queue[1] = None;
        }

        let ghost before = old(self)@.games;
        let ghost seen: int = 0;
        let mut i: usize = 0;
        assert(before.skip(0) =~= before);
        while i < self.games.len()
            invariant
                0 <= seen <= before.len(),
                self@.games == games_without(before.take(seen), peer_id) + before.skip(seen),
                i == games_without(before.take(seen), peer_id).len(),
                self@.players == old(self)@.remove_player(peer_id).players,
                self@.last_queue == old(self)@.remove_player(peer_id).last_queue,
                self@.packets == old(self)@.packets,
                self@.saves == old(self)@.saves,
                self@.unsent == old(self)@.unsent,
                self@.questions == old(self)@.questions,
                self@.next_game_id == old(self)@.next_game_id,
            decreases self.games@.len() - i,
        {
            proof {
                assert(self@.games[i as int] == before[seen]);
                assert(before.take(seen + 1).drop_last() =~= before.take(seen));
            }
            if self.games[i].p1 == peer_id || self.games[i].p2 == peer_id {
                let ghost prev = self@.games;
                self.games.remove(i);
                proof {
                    assert(self@.games =~= prev.remove(i as int));
                }
            } else {
                i += 1;
            }
            proof {
                seen = seen + 1;
            }
        }
        proof {
            assert(seen == before.len());
            lemma_remove_player_wf(old(self)@, peer_id);
        }
    }
}

/// Every match left by `games_without` is one of `games`, no match in which
/// `peer` plays is left, and matches keep their order.
pub proof fn lemma_games_without(games: Seq<GameView>, peer: u64)
    ensures
        games_without(games, peer).len() <= games.len(),
        forall|k: int|
            0 <= k < games_without(games, peer).len() ==> !(#[trigger] games_without(
                games,
                peer,
            )[k]).has(peer),
        forall|k: int|
            0 <= k < games_without(games, peer).len() ==> exists|j: int|
                k <= j < games.len() && games[j] == #[trigger] games_without(games, peer)[k],
        forall|k: int, l: int|
            0 <= k < l < games_without(games, peer).len() ==> exists|j: int, h: int|
                0 <= j < h < games.len() && games[j] == #[trigger] games_without(games, peer)[k]
                    && games[h] == #[trigger] games_without(games, peer)[l],
    decreases games.len(),
{
    if games.len() > 0 {
        let rest = games.drop_last();
        lemma_games_without(rest, peer);
        let kept = games_without(games, peer);
        let kept_rest = games_without(rest, peer);
        assert forall|k: int| 0 <= k < kept.len() implies exists|j: int|
            k <= j < games.len() && games[j] == #[trigger] kept[k] by {
            if k < kept_rest.len() {
                let j = choose|j: int| k <= j < rest.len() && rest[j] == kept_rest[k];
            }
        }
        assert forall|k: int, l: int| 0 <= k < l < kept.len() implies exists|j: int, h: int|
            0 <= j < h < games.len() && games[j] == #[trigger] kept[k] && games[h]
                == #[trigger] kept[l] by {
            if l < kept_rest.len() {
                let (j, h) = choose|j: int, h: int|
                    0 <= j < h < rest.len() && rest[j] == kept_rest[k] && rest[h] == kept_rest[l];
            }
        }
    }
}

/// A state stays well formed when the bank, the slots and the id counter
/// stay, the players keep their places, handles and references, and the
/// matches keep their places, ids and players and stay well formed.
pub proof fn lemma_same_peers_wf(before: Model, after: Model)
    requires
        before.wf(),
        after.questions == before.questions,
        after.last_queue == before.last_queue,
        after.next_game_id >= before.next_game_id,
        after.players.len() == before.players.len(),
        forall|k: int|
            0 <= k < after.players.len() ==> (#[trigger] after.players[k]).peer_id
                == before.players[k].peer_id && after.players[k].game_id
                == before.players[k].game_id,
        after.games.len() == before.games.len(),
        forall|g: int|
            0 <= g < after.games.len() ==> {
                &&& (#[trigger] after.games[g]).id == before.games[g].id
                &&& after.games[g].p1 == before.games[g].p1
                &&& after.games[g].p2 == before.games[g].p2
                &&& after.games[g].wf(after.questions.len())
            },
    ensures
        after.wf(),
        forall|peer: u64|
            is_registered(before.players, peer) ==> is_registered(after.players, peer) && index_of(
                after.players,
                peer,
            ) == index_of(before.players, peer),
        forall|peer: u64| is_registered(after.players, peer) ==> is_registered(before.players, peer),
{
    assert forall|peer: u64| is_registered(before.players, peer) implies is_registered(
        after.players,
        peer,
    ) && index_of(after.players, peer) == index_of(before.players, peer) by {
        let k = index_of(before.players, peer);
        assert(after.players[k].peer_id == peer);
        lemma_index_of(after.players, peer, k);
    }
    assert forall|peer: u64| is_registered(after.players, peer) implies is_registered(
        before.players,
        peer,
    ) by {
        let k = index_of(after.players, peer);
        assert(before.players[k].peer_id == peer);
    }
    assert forall|g: int| 0 <= g < after.games.len() implies after.game_ok(
        #[trigger] after.games[g],
    ) by {
        assert(before.game_ok(before.games[g]));
    }
    assert forall|g: int, h: int|
        0 <= g < after.games.len() && 0 <= h < after.games.len() && g != h implies (
    #[trigger] after.games[g]).id != (#[trigger] after.games[h]).id by {
        assert(before.games[g].id != before.games[h].id);
    }
    assert forall|s: int| 0 <= s < 2 implies match #[trigger] after.last_queue[s] {
        Some(waiting) => is_registered(after.players, waiting) ==> after.whose(waiting).game_id is None,
        None => true,
    } by {
        assert(after.last_queue[s] == before.last_queue[s]);
    }
}

/// A player that holds no reference to a live match plays in none, and a
/// player is in at most one match.
pub proof fn lemma_one_match(m: Model, peer: u64)
    requires
        m.wf(),
    ensures
        forall|g: int, h: int|
            0 <= g < m.games.len() && 0 <= h < m.games.len() && (#[trigger] m.games[g]).has(peer) && (
            #[trigger] m.games[h]).has(peer) ==> g == h,
        forall|g: int|
            0 <= g < m.games.len() && (#[trigger] m.games[g]).has(peer) ==> is_registered(
                m.players,
                peer,
            ) && m.whose(peer).game_id == Some(m.games[g].id),
{
    assert forall|g: int| 0 <= g < m.games.len() && (#[trigger] m.games[g]).has(peer) implies is_registered(
        m.players,
        peer,
    ) && m.whose(peer).game_id == Some(m.games[g].id) by {
        assert(m.game_ok(m.games[g]));
    }
}

/// Creating a match between two registered players that play and wait
/// nowhere keeps the state well formed.
pub proof fn lemma_add_game_wf(m: Model, p1: u64, p2: u64, competitive: bool, now: i64)
    requires
        m.wf(),
        m.next_game_id < u64::MAX,
        p1 != p2,
        is_registered(m.players, p1),
        is_registered(m.players, p2),
        m.plays_nowhere(p1),
        m.plays_nowhere(p2),
        m.waits_nowhere(p1),
        m.waits_nowhere(p2),
    ensures
        m.add_game(p1, p2, competitive, now).wf(),
        forall|peer: u64|
            is_registered(m.players, peer) <==> is_registered(
                m.add_game(p1, p2, competitive, now).players,
                peer,
            ),
        forall|peer: u64|
            is_registered(m.players, peer) ==> index_of(
                m.add_game(p1, p2, competitive, now).players,
                peer,
            ) == index_of(m.players, peer),
{
    let after = m.add_game(p1, p2, competitive, now);
    let i = index_of(m.players, p1);
    let j = index_of(m.players, p2);
    assert forall|k: int| 0 <= k < after.players.len() implies (#[trigger] after.players[k]).peer_id
        == m.players[k].peer_id by {}
    assert forall|peer: u64| is_registered(m.players, peer) implies is_registered(
        after.players,
        peer,
    ) && index_of(after.players, peer) == index_of(m.players, peer) by {
        let k = index_of(m.players, peer);
        assert(after.players[k].peer_id == peer);
        lemma_index_of(after.players, peer, k);
    }
    assert forall|peer: u64| is_registered(after.players, peer) implies is_registered(
        m.players,
        peer,
    ) by {
        let k = index_of(after.players, peer);
        assert(m.players[k].peer_id == peer);
    }
    assert forall|g: int| 0 <= g < after.games.len() implies after.game_ok(
        #[trigger] after.games[g],
    ) by {
        if g < m.games.len() {
            let game = m.games[g];
            assert(m.game_ok(game));
            assert(!game.has(p1) && !game.has(p2));
            let k1 = index_of(m.players, game.p1);
            let k2 = index_of(m.players, game.p2);
            assert(k1 != i && k1 != j && k2 != i && k2 != j);
        }
    }
    assert forall|g: int, h: int|
        0 <= g < after.games.len() && 0 <= h < after.games.len() && g != h implies (
    #[trigger] after.games[g]).id != (#[trigger] after.games[h]).id by {
        if g < m.games.len() {
            assert(m.game_ok(m.games[g]));
        }
        if h < m.games.len() {
            assert(m.game_ok(m.games[h]));
        }
    }
    assert forall|s: int| 0 <= s < 2 implies match #[trigger] after.last_queue[s] {
        Some(waiting) => is_registered(after.players, waiting) ==> after.whose(waiting).game_id is None,
        None => true,
    } by {
        if after.last_queue[s] is Some {
            let w = after.last_queue[s].unwrap();
            assert(m.last_queue[s] == Some(w));
            assert(w != p1 && w != p2);
            if is_registered(after.players, w) {
                let k = index_of(m.players, w);
                assert(k != i && k != j);
            }
        }
    }
}

/// Removing a player keeps the state well formed, and leaves every other
/// player registered and as it was.
pub proof fn lemma_remove_player_wf(m: Model, peer: u64)
    requires
        m.wf(),
    ensures
        m.remove_player(peer).wf(),
        !is_registered(m.remove_player(peer).players, peer),
        forall|other: u64|
            is_registered(m.remove_player(peer).players, other) ==> other != peer && is_registered(
                m.players,
                other,
            ),
        forall|other: u64|
            other != peer && is_registered(m.players, other) ==> is_registered(
                m.remove_player(peer).players,
                other,
            ) && m.remove_player(peer).whose(other) == m.whose(other),
{
    let after = m.remove_player(peer);
    lemma_games_without(m.games, peer);
    if is_registered(m.players, peer) {
        let i = index_of(m.players, peer);
        assert forall|a: int, b: int|
            0 <= a < after.players.len() && 0 <= b < after.players.len() && a != b implies (
        #[trigger] after.players[a]).peer_id != (#[trigger] after.players[b]).peer_id by {
            let a0 = if a < i {
                a
            } else {
                a + 1
            };
            let b0 = if b < i {
                b
            } else {
                b + 1
            };
            assert(after.players[a] == m.players[a0]);
            assert(after.players[b] == m.players[b0]);
        }
        assert forall|other: u64| is_registered(after.players, other) implies other != peer
            && is_registered(m.players, other) by {
            let k = index_of(after.players, other);
            let k0 = if k < i {
                k
            } else {
                k + 1
            };
            assert(after.players[k] == m.players[k0]);
            lemma_index_of(m.players, other, k0);
        }
        assert forall|other: u64|
            other != peer && is_registered(m.players, other) implies is_registered(
            after.players,
            other,
        ) && after.whose(other) == m.whose(other) by {
            let j = index_of(m.players, other);
            let j1 = if j < i {
                j
            } else {
                j - 1
            };
            assert(after.players[j1] == m.players[j]);
            lemma_index_of(after.players, other, j1);
        }
    }
    assert forall|g: int| 0 <= g < after.games.len() implies after.game_ok(
        #[trigger] after.games[g],
    ) by {
        let j = choose|j: int| g <= j < m.games.len() && m.games[j] == after.games[g];
        assert(m.game_ok(m.games[j]));
        assert(!after.games[g].has(peer));
    }
    assert forall|g: int, h: int|
        0 <= g < after.games.len() && 0 <= h < after.games.len() && g != h implies (
    #[trigger] after.games[g]).id != (#[trigger] after.games[h]).id by {
        if g < h {
            let (j, k) = choose|j: int, k: int|
                0 <= j < k < m.games.len() && m.games[j] == after.games[g] && m.games[k]
                    == after.games[h];
            assert(m.games[j].id != m.games[k].id);
        } else {
            let (j, k) = choose|j: int, k: int|
                0 <= j < k < m.games.len() && m.games[j] == after.games[h] && m.games[k]
                    == after.games[g];
            assert(m.games[j].id != m.games[k].id);
        }
    }
    assert forall|s: int| 0 <= s < 2 implies match #[trigger] after.last_queue[s] {
        Some(waiting) => is_registered(after.players, waiting) ==> after.whose(waiting).game_id is None,
        None => true,
    } by {
        if after.last_queue[s] is Some {
            assert(m.last_queue[s] == after.last_queue[s]);
        }
    }
}

/// Registering a player keeps the state well formed, and leaves every other
/// player registered and as it was.
pub proof fn lemma_registered_after_add(m: Model, peer: u64)
    requires
        m.wf(),
    ensures
        m.add_player(peer).wf(),
        is_registered(m.add_player(peer).players, peer),
        m.add_player(peer).whose(peer) == PlayerView::fresh(peer),
        forall|other: u64|
            other != peer && is_registered(m.players, other) ==> is_registered(
                m.add_player(peer).players,
                other,
            ) && m.add_player(peer).whose(other) == m.whose(other),
{
    let left = m.remove_player(peer);
    let after = m.add_player(peer);
    lemma_remove_player_wf(m, peer);
    let n = left.players.len() as int;
    assert(after.players[n] == PlayerView::fresh(peer));
    assert forall|a: int, b: int|
        0 <= a < after.players.len() && 0 <= b < after.players.len() && a != b implies (
    #[trigger] after.players[a]).peer_id != (#[trigger] after.players[b]).peer_id by {
        if a < n {
            assert(after.players[a] == left.players[a]);
        }
        if b < n {
            assert(after.players[b] == left.players[b]);
        }
    }
    lemma_index_of(after.players, peer, n);
    assert forall|other: u64| is_registered(left.players, other) implies is_registered(
        after.players,
        other,
    ) && after.whose(other) == left.whose(other) by {
        let j = index_of(left.players, other);
        assert(after.players[j] == left.players[j]);
        lemma_index_of(after.players, other, j);
    }
    assert forall|g: int| 0 <= g < after.games.len() implies after.game_ok(
        #[trigger] after.games[g],
    ) by {
        assert(left.game_ok(left.games[g]));
    }
    assert forall|s: int| 0 <= s < 2 implies match #[trigger] after.last_queue[s] {
        Some(waiting) => is_registered(after.players, waiting) ==> after.whose(waiting).game_id is None,
        None => true,
    } by {
        if after.last_queue[s] is Some {
            let w = after.last_queue[s].unwrap();
            assert(left.last_queue[s] == Some(w));
            if is_registered(after.players, w) && w != peer {
                let k = index_of(after.players, w);
                assert(k < n);
                assert(left.players[k] == after.players[k]);
                lemma_index_of(left.players, w, k);
            }
        }
    }
}

} // verus!
