//! Profile pictures for lists of friends: a friend who is connected shows the
//! picture it has in this session, anyone else the picture storage holds for
//! it.

use vstd::prelude::*;
use crate::database::{FriendInfo, FriendRequestInfo};
use crate::player::{friend_records, friend_request_records, profile_fields, PlayerView};
use crate::state::State;
use crate::wire::Fields;

verus! {

/// Where the connected player with the storage id `id` stands, leaving out the
/// player at `asker`. Of several, the one registered last.
pub open spec fn online_as(players: Seq<PlayerView>, asker: int, id: i32) -> Option<int>
    decreases players.len(),
{
    if players.len() == 0 {
        None
    } else if players.last().id == id && players.len() - 1 != asker {
        Some(players.len() - 1)
    } else {
        online_as(players.drop_last(), asker, id)
    }
}

/// The picture and extension shown for the player with the storage id `id`,
/// whose stored picture is `stored_blob` with the extension `stored_ext`.
pub open spec fn avatar_of(
    players: Seq<PlayerView>,
    asker: int,
    id: i32,
    stored_blob: Seq<u8>,
    stored_ext: Seq<char>,
) -> (Seq<u8>, Seq<char>) {
    match online_as(players, asker, id) {
        Some(k) => (players[k].pfp_blob, players[k].pfp_ext),
        None => (stored_blob, stored_ext),
    }
}

/// The records sent for the friends listed, each with the picture shown for
/// it.
pub open spec fn shown_friends(players: Seq<PlayerView>, asker: int, friends: Seq<FriendInfo>) -> Seq<
    Fields,
> {
    Seq::new(
        friends.len(),
        |k: int|
            {
                let f = friends[k];
                let shown = avatar_of(players, asker, f.id, f.pfp@, f.pfp_ext@);
                profile_fields(f.id, f.name@, shown.0, shown.1)
            },
    )
}

/// The records sent for the friend requests listed, each with the picture
/// shown for its sender.
pub open spec fn shown_requests(
    players: Seq<PlayerView>,
    asker: int,
    requests: Seq<FriendRequestInfo>,
) -> Seq<Fields> {
    Seq::new(
        requests.len(),
        |k: int|
            {
                let r = requests[k];
                let shown = avatar_of(players, asker, r.id, r.pfp@, r.pfp_ext@);
                profile_fields(r.id, r.name@, shown.0, shown.1)
            },
    )
}

impl State {
    /// Where the connected player with the storage id `id` stands, leaving out
    /// the player at `asker`.
    pub fn find_online(&self, asker: usize, id: i32) -> (r: Option<usize>)
        ensures
            match r {
                Some(k) => online_as(self@.players, asker as int, id) == Some(k as int) && k
                    < self@.players.len(),
                None => online_as(self@.players, asker as int, id) is None,
            },
    {
        let mut k: usize = self.players.len();
        assert(self@.players.take(k as int) =~= self@.players);
        while k > 0
            invariant
                k <= self@.players.len(),
                online_as(self@.players, asker as int, id) == online_as(
                    self@.players.take(k as int),
                    asker as int,
                    id,
                ),
            decreases k,
        {
            k -= 1;
            proof {
                let upto = self@.players.take(k + 1);
                assert(upto.last() == self@.players[k as int]);
                assert(upto.drop_last() =~= self@.players.take(k as int));
            }
            if self.players[k].id == id && k != asker {
                return Some(k);
            }
        }
        None
    }

    /// Gives every friend listed who is connected the picture of its session
    /// and marks it as online; the others keep their stored picture.
    pub fn fill_friends(&self, asker: usize, friends: &mut Vec<FriendInfo>)
        ensures
            friend_records(final(friends)@) == shown_friends(
                self@.players,
                asker as int,
                old(friends)@,
            ),
            final(friends)@.len() == old(friends)@.len(),
            forall|j: int|
                0 <= j < old(friends)@.len() ==> (#[trigger] final(friends)@[j]).online == (old(friends)@[j].online || online_as(self@.players, asker as int, old(friends)@[j].id) is Some),
    {
        let ghost before = friends@;
        let ghost shown = shown_friends(self@.players, asker as int, before);
        let mut k: usize = 0;
        while k < friends.len()
            invariant
                k <= friends@.len(),
                friends@.len() == before.len(),
                shown == shown_friends(self@.players, asker as int, before),
                forall|j: int| 0 <= j < k ==> (#[trigger] friend_records(friends@)[j]) == shown[j],
                forall|j: int|
                    0 <= j < k ==> (#[trigger] friends@[j]).online == (before[j].online || online_as(
                        self@.players,
                        asker as int,
                        before[j].id,
                    ) is Some),
                forall|j: int| k <= j < friends@.len() ==> #[trigger] friends@[j] == before[j],
            decreases friends@.len() - k,
        {
            let ghost prev = friends@;
            match self.find_online(asker, friends[k].id) {
                Some(p) => {
                    friends[k].online = true;
                    friends[k].pfp = self.players[p].pfp_blob.clone();
                    friends[k].pfp_ext = self.players[p].pfp_ext.clone();
                },
                None => {},
            }
            proof {
                assert forall|j: int| 0 <= j < k + 1 implies (#[trigger] friend_records(
                    friends@,
                )[j]) == shown[j] by {
                    if j < k {
                        assert(friends@[j] == prev[j]);
                        assert(friend_records(prev)[j] == shown[j]);
                    }
                }
                assert forall|j: int| 0 <= j < k implies (#[trigger] friends@[j]).online == (
                before[j].online || online_as(self@.players, asker as int, before[j].id) is Some) by {
                    assert(friends@[j] == prev[j]);
                }
            }
            k += 1;
        }
        assert(friend_records(friends@) =~= shown);
    }

    /// Gives the sender of every request listed who is connected the picture
    /// of its session; the others keep their stored picture.
    pub fn fill_requests(&self, asker: usize, requests: &mut Vec<FriendRequestInfo>)
        ensures
            friend_request_records(final(requests)@) == shown_requests(
                self@.players,
                asker as int,
                old(requests)@,
            ),
            final(requests)@.len() == old(requests)@.len(),
    {
        let ghost before = requests@;
        let ghost shown = shown_requests(self@.players, asker as int, before);
        let mut k: usize = 0;
        while k < requests.len()
            invariant
                k <= requests@.len(),
                requests@.len() == before.len(),
                shown == shown_requests(self@.players, asker as int, before),
                forall|j: int|
                    0 <= j < k ==> (#[trigger] friend_request_records(requests@)[j]) == shown[j],
                forall|j: int| k <= j < requests@.len() ==> #[trigger] requests@[j] == before[j],
            decreases requests@.len() - k,
        {
            let ghost prev = requests@;
            match self.find_online(asker, requests[k].id) {
                Some(p) => {
                    requests[k].pfp = self.players[p].pfp_blob.clone();
                    requests[k].pfp_ext = self.players[p].pfp_ext.clone();
                },
                None => {},
            }
            proof {
                assert forall|j: int| 0 <= j < k + 1 implies (#[trigger] friend_request_records(
                    requests@,
                )[j]) == shown[j] by {
                    if j < k {
                        assert(requests@[j] == prev[j]);
                        assert(friend_request_records(prev)[j] == shown[j]);
                    }
                }
            }
            k += 1;
        }
        assert(friend_request_records(requests@) =~= shown);
    }
}

} // verus!
