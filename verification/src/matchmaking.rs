//! The matchmaking slots: one waiting player per mode, paired with the next
//! arrival.

use vstd::prelude::*;
use crate::player::{match_notify_fields, PlayerView};
use crate::protocol::Fault;
use crate::state::{
    index_of, is_registered, lemma_add_game_wf, lemma_index_of, lemma_one_match, note_unsent,
    slot_of, Model, State,
};

verus! {

impl Model {
    /// How a request of `peer` to join the queue of a mode ends. It is turned
    /// down where `peer` is in a live match; where `peer` itself waits in the
    /// slot of the mode; where the player waiting there has left; and where
    /// the two could be paired but no match id is left.
    pub open spec fn join_outcome(self, peer: u64, competitive: bool) -> Result<(), Fault> {
        if self.match_of(peer) is Some {
            Err(Fault::AlreadyInMatch)
        } else {
            match self.last_queue[slot_of(competitive)] {
                None => Ok(()),
                Some(waiting) => if waiting == peer {
                    Err(Fault::DuplicateJoin)
                } else if !is_registered(self.players, waiting) {
                    Err(Fault::PartnerGone)
                } else if self.next_game_id == u64::MAX {
                    Err(Fault::OutOfMatchIds)
                } else {
                    Ok(())
                },
            }
        }
    }

    /// Whether the request pairs `peer` with the player waiting in the slot.
    pub open spec fn join_pairs(self, peer: u64, competitive: bool) -> bool {
        self.join_outcome(peer, competitive) is Ok && self.last_queue[slot_of(competitive)] is Some
    }

    /// The slots without `a` and `b`.
    pub open spec fn without_waiting(self, a: u64, b: u64) -> Seq<Option<u64>> {
        self.last_queue.map_values(
            |s: Option<u64>|
                if s == Some(a) || s == Some(b) {
                    None
                } else {
                    s
                },
        )
    }

    /// `joiner` and `waiting` are matched at `now`: neither waits in any slot
    /// any more; each is told the other's name and picture, the waiting player
    /// first; a match is created with the joiner in the first place; both hold
    /// the reference to it.
    pub open spec fn pair(self, joiner: u64, waiting: u64, competitive: bool, now: i64) -> Model {
        let a = self.whose(joiner);
        let b = self.whose(waiting);
        Model { last_queue: self.without_waiting(joiner, waiting), ..self }.post(
            waiting,
            match_notify_fields(a.name, a.pfp_blob, a.pfp_ext),
        ).post(joiner, match_notify_fields(b.name, b.pfp_blob, b.pfp_ext)).add_game(
            joiner,
            waiting,
            competitive,
            now,
        )
    }

    /// The state after `peer` asked at `now` to join the queue of a mode. A
    /// request of a player that is in a live match changes nothing. Otherwise
    /// the player gives up a reference to a match that is gone, if it holds
    /// one, and then: an empty slot takes `peer`; a slot that holds `peer`
    /// itself, or a player that has left, is cleared, and so is the slot where
    /// no match id is left; otherwise the two are paired.
    pub open spec fn join_queue(self, peer: u64, competitive: bool, now: i64) -> Model {
        let slot = slot_of(competitive);
        if self.match_of(peer) is Some {
            self
        } else {
            let free = self.with_player(peer, PlayerView { game_id: None, ..self.whose(peer) });
            match self.last_queue[slot] {
                None => Model { last_queue: self.last_queue.update(slot, Some(peer)), ..free },
                Some(waiting) => if self.join_pairs(peer, competitive) {
                    free.pair(peer, waiting, competitive, now)
                } else {
                    Model { last_queue: self.last_queue.update(slot, None), ..free }
                },
            }
        }
    }
}

impl State {
    /// Handles the request of the player of `peer_id` to be matched in a mode.
    /// An error means the connection is to be terminated.
    pub fn join_queue(&mut self, peer_id: u64, competitive: bool, now: i64) -> (r: Result<(), Fault>)
        requires
            old(self).wf(),
            is_registered(old(self)@.players, peer_id),
        ensures
            r == old(self)@.join_outcome(peer_id, competitive),
            final(self)@ == old(self)@.join_queue(peer_id, competitive, now),
            final(self).wf(),
    {
        let ghost before = self@;
        proof {
            lemma_join_wf(before, peer_id, competitive, now);
        }
        if self.find_match(peer_id).is_some() {
            return Err(Fault::AlreadyInMatch);
        }
        proof {
            lemma_free_wf(before, peer_id);
        }
        let i = self.index_of_player(peer_id);
        self.players[i].game_id = None;
        let ghost free = before.with_player(
            peer_id,
            PlayerView { game_id: None, ..before.whose(peer_id) },
        );
        assert(self@.players =~= free.players);
        assert(self@ == free);
        let slot: usize = if competitive { 1 } else { 0 };
        let waiting = match self.last_queue[slot] {
            None => {
                self.last_queue[slot] = Some(peer_id);
                assert(self@.last_queue =~= before.last_queue.update(slot as int, Some(peer_id)));
                return Ok(());
            },
            Some(waiting) => waiting,
        };
        let known = self.find_player(waiting);
        if waiting == peer_id || known.is_none() || self.next_game_id == u64::MAX {
            self.last_queue[slot] = None;
            assert(self@.last_queue =~= before.last_queue.update(slot as int, None));
            if waiting == peer_id {
                return Err(Fault::DuplicateJoin);
            }
            if known.is_none() {
                return Err(Fault::PartnerGone);
            }
            return Err(Fault::OutOfMatchIds);
        }
        let j = self.index_of_player(waiting);
        if self.last_queue[0] == Some(peer_id) || self.last_queue[0] == Some(waiting) {
            self.last_queue[0] = None;
        }
        if self.last_queue[1] == Some(peer_id) || self.last_queue[1] == Some(waiting) {
            self.last_queue[1] = None;
        }
        assert(self@.last_queue =~= free.without_waiting(peer_id, waiting));
        let queued = self.players[j].send_match_notify(
            &mut self.packets,
            self.players[i].name.as_str(),
            self.players[i].pfp_blob.as_slice(),
            self.players[i].pfp_ext.as_str(),
        );
        note_unsent(&mut self.unsent, self.players[j].peer_id, queued);
        let queued = self.players[i].send_match_notify(
            &mut self.packets,
            self.players[j].name.as_str(),
            self.players[j].pfp_blob.as_slice(),
            self.players[j].pfp_ext.as_str(),
        );
        note_unsent(&mut self.unsent, self.players[i].peer_id, queued);
        proof {
            lemma_pair_ready(before, peer_id, competitive, now);
            let a = free.whose(peer_id);
            let b = free.whose(waiting);
            let cleared = Model { last_queue: free.without_waiting(peer_id, waiting), ..free };
            assert(self@ == cleared.post(
                waiting,
                match_notify_fields(a.name, a.pfp_blob, a.pfp_ext),
            ).post(peer_id, match_notify_fields(b.name, b.pfp_blob, b.pfp_ext)));
        }
        self.add_game(peer_id, waiting, competitive, now);
        Ok(())
    }

    /// Where the player registered under `peer_id` stands.
    pub fn index_of_player(&self, peer_id: u64) -> (i: usize)
        requires
            self.wf(),
            is_registered(self@.players, peer_id),
        ensures
            i == index_of(self@.players, peer_id),
            i < self@.players.len(),
            self@.players[i as int].peer_id == peer_id,
    {
        match self.find_player(peer_id) {
            Some(i) => i,
            None => vstd::pervasive::unreached(),
        }
    }
}

/// A player that is in no live match may give up its reference: the state
/// stays well formed, and the player plays nowhere.
pub proof fn lemma_free_wf(m: Model, peer: u64)
    requires
        m.wf(),
        is_registered(m.players, peer),
        m.match_of(peer) is None,
    ensures
        m.with_player(peer, PlayerView { game_id: None, ..m.whose(peer) }).wf(),
        m.plays_nowhere(peer),
        m.with_player(peer, PlayerView { game_id: None, ..m.whose(peer) }).plays_nowhere(peer),
        forall|other: u64|
            is_registered(m.players, other) <==> is_registered(
                m.with_player(peer, PlayerView { game_id: None, ..m.whose(peer) }).players,
                other,
            ),
        forall|other: u64|
            is_registered(m.players, other) ==> index_of(
                m.with_player(peer, PlayerView { game_id: None, ..m.whose(peer) }).players,
                other,
            ) == index_of(m.players, other),
{
    let free = m.with_player(peer, PlayerView { game_id: None, ..m.whose(peer) });
    let i = index_of(m.players, peer);
    lemma_one_match(m, peer);
    assert forall|g: int| 0 <= g < m.games.len() implies !(#[trigger] m.games[g]).has(peer) by {
        if m.games[g].has(peer) {
            crate::round::lemma_game_index(m.games, m.games[g].id, g);
        }
    }
    assert forall|k: int| 0 <= k < free.players.len() implies (#[trigger] free.players[k]).peer_id
        == m.players[k].peer_id by {}
    assert forall|other: u64| is_registered(m.players, other) implies is_registered(
        free.players,
        other,
    ) && index_of(free.players, other) == index_of(m.players, other) by {
        let k = index_of(m.players, other);
        assert(free.players[k].peer_id == other);
        lemma_index_of(free.players, other, k);
    }
    assert forall|other: u64| is_registered(free.players, other) implies is_registered(
        m.players,
        other,
    ) by {
        let k = index_of(free.players, other);
        assert(m.players[k].peer_id == other);
    }
    assert forall|g: int| 0 <= g < free.games.len() implies free.game_ok(
        #[trigger] free.games[g],
    ) by {
        let game = m.games[g];
        assert(m.game_ok(game));
        assert(!game.has(peer));
        assert(index_of(m.players, game.p1) != i);
        assert(index_of(m.players, game.p2) != i);
    }
    assert forall|s: int| 0 <= s < 2 implies match #[trigger] free.last_queue[s] {
        Some(waiting) => is_registered(free.players, waiting) ==> free.whose(waiting).game_id is None,
        None => true,
    } by {
        assert(free.last_queue[s] == m.last_queue[s]);
    }
}

/// Where a request pairs two players, both are registered and distinct, and,
/// once the asker has given up a dead reference and the slots are cleared of
/// both, they play and wait nowhere, in a state that is well formed.
pub proof fn lemma_pair_ready(m: Model, peer: u64, competitive: bool, now: i64)
    requires
        m.wf(),
        is_registered(m.players, peer),
        m.join_pairs(peer, competitive),
    ensures
        ({
            let waiting = m.last_queue[slot_of(competitive)].unwrap();
            let free = m.with_player(peer, PlayerView { game_id: None, ..m.whose(peer) });
            let a = free.whose(peer);
            let b = free.whose(waiting);
            let told = Model { last_queue: free.without_waiting(peer, waiting), ..free }.post(
                waiting,
                match_notify_fields(a.name, a.pfp_blob, a.pfp_ext),
            ).post(peer, match_notify_fields(b.name, b.pfp_blob, b.pfp_ext));
            &&& waiting != peer
            &&& told.wf()
            &&& told.next_game_id < u64::MAX
            &&& is_registered(told.players, peer)
            &&& is_registered(told.players, waiting)
            &&& told.plays_nowhere(peer)
            &&& told.plays_nowhere(waiting)
            &&& told.waits_nowhere(peer)
            &&& told.waits_nowhere(waiting)
            &&& told.players == free.players
        }),
{
    let slot = slot_of(competitive);
    let waiting = m.last_queue[slot].unwrap();
    let free = m.with_player(peer, PlayerView { game_id: None, ..m.whose(peer) });
    lemma_free_wf(m, peer);
    let cleared = Model { last_queue: free.without_waiting(peer, waiting), ..free };
    assert(free.last_queue[slot] == Some(waiting));
    assert(free.whose(waiting).game_id is None);
    lemma_one_match(free, waiting);
    assert forall|s: int| 0 <= s < 2 implies match #[trigger] cleared.last_queue[s] {
        Some(w) => is_registered(cleared.players, w) ==> cleared.whose(w).game_id is None,
        None => true,
    } by {
        if cleared.last_queue[s] is Some {
            assert(cleared.last_queue[s] == free.last_queue[s]);
        }
    }
    assert forall|g: int| 0 <= g < cleared.games.len() implies cleared.game_ok(
        #[trigger] cleared.games[g],
    ) by {
        assert(free.game_ok(free.games[g]));
    }
    assert(cleared.wf());
}

/// A request to join keeps the state well formed and the players registered.
pub proof fn lemma_join_wf(m: Model, peer: u64, competitive: bool, now: i64)
    requires
        m.wf(),
        is_registered(m.players, peer),
    ensures
        m.join_queue(peer, competitive, now).wf(),
        forall|other: u64|
            is_registered(m.players, other) <==> is_registered(
                m.join_queue(peer, competitive, now).players,
                other,
            ),
{
    let slot = slot_of(competitive);
    let after = m.join_queue(peer, competitive, now);
    if m.match_of(peer) is None {
        let free = m.with_player(peer, PlayerView { game_id: None, ..m.whose(peer) });
        lemma_free_wf(m, peer);
        lemma_index_of(free.players, peer, index_of(m.players, peer));
        if m.join_pairs(peer, competitive) {
            let waiting = m.last_queue[slot].unwrap();
            lemma_pair_ready(m, peer, competitive, now);
            let a = free.whose(peer);
            let b = free.whose(waiting);
            let told = Model { last_queue: free.without_waiting(peer, waiting), ..free }.post(
                waiting,
                match_notify_fields(a.name, a.pfp_blob, a.pfp_ext),
            ).post(peer, match_notify_fields(b.name, b.pfp_blob, b.pfp_ext));
            lemma_add_game_wf(told, peer, waiting, competitive, now);
            assert(after == told.add_game(peer, waiting, competitive, now));
        } else {
            assert forall|s: int| 0 <= s < 2 implies match #[trigger] after.last_queue[s] {
                Some(w) => is_registered(after.players, w) ==> after.whose(w).game_id is None,
                None => true,
            } by {
                if s != slot {
                    assert(after.last_queue[s] == free.last_queue[s]);
                }
            }
            assert forall|g: int| 0 <= g < after.games.len() implies after.game_ok(
                #[trigger] after.games[g],
            ) by {
                assert(free.game_ok(free.games[g]));
            }
        }
    }
}

} // verus!
