//! The dispatch layer: what the server does with a transport event, with a
//! command, and with an answer of storage.

use vstd::prelude::*;
use bson::Document;
use crate::command::{decode, decoded, Command};
use crate::database::{PlayerRecord, RankUpdate, Reply, Request};
use crate::player::{
    auth_response_fields, change_profile_picture_fields, friend_requests_fields, friends_fields,
    leaderboard_fields, search_name_fields, update_name_fields, PlayerView,
};
use crate::protocol::Fault;
use crate::social::{shown_friends, shown_requests};
use crate::state::{
    index_of, is_registered, lemma_same_peers_wf, note_unsent, Model, PacketSent, State,
};
use crate::wire::{doc_from_slice, fields, parsed, Fields};

verus! {

/// What the transport reports of a connection.
#[derive(Clone, Debug, PartialEq, Eq)]
pub enum Event {
    /// The connection was opened.
    Connect,
    /// The connection was closed.
    Disconnect,
    /// These bytes arrived on the connection.
    Receive(Vec<u8>),
}

/// How the handling of an event or a command stands.
#[derive(Clone, Debug, PartialEq, Eq)]
pub enum Step {
    /// The handling is over and the connection stays.
    Done,
    /// The handling is over and the connection is to be terminated.
    Disconnect(Fault),
    /// The handling goes on with what storage answers to this request.
    Ask(Request),
}

/// `c` with an upper-case ASCII letter turned into its lower-case form.
pub open spec fn ascii_lower(c: char) -> char {
    if 65 <= c as u32 <= 90 {
        ((c as u32) + 32) as char
    } else {
        c
    }
}

/// Whether two strings are equal but for the case of their ASCII letters.
pub open spec fn same_ignoring_ascii_case(a: Seq<char>, b: Seq<char>) -> bool {
    &&& a.len() == b.len()
    &&& forall|i: int| 0 <= i < a.len() ==> ascii_lower(#[trigger] a[i]) == ascii_lower(b[i])
}

/// `str::eq_ignore_ascii_case`: the two strings with their ASCII letters in
/// lower case are equal.
#[verifier::external_body]
pub(crate) fn eq_ignore_ascii_case(a: &str, b: &str) -> (r: bool)
    ensures
        r == same_ignoring_ascii_case(a@, b@),
{
    a.eq_ignore_ascii_case(b)
}

/// A player after the stored player `record` was loaded into it.
pub open spec fn loaded(p: PlayerView, record: PlayerRecord) -> PlayerView {
    PlayerView {
        id: record.id,
        rid: record.rid@,
        name: record.name@,
        rating: record.rating,
        win_count: record.win_count,
        lose_count: record.lose_count,
        pfp_blob: record.pfp_blob@,
        pfp_ext: record.pfp_ext@,
        ..p
    }
}

/// What a search answers when it shows nobody.
pub open spec fn nobody_found() -> Fields {
    search_name_fields(false, Seq::empty(), Seq::empty(), Seq::empty())
}

/// What a failed authentication answers.
pub open spec fn auth_refused() -> Fields {
    auth_response_fields(Seq::empty(), Seq::empty(), Seq::empty(), true)
}

impl Model {
    /// How the handling of `command` from `peer` stands after its first step.
    /// A command of an unknown connection is ignored. Joining the queue and
    /// answering end at once, as the queue and the match decide. A friend
    /// request to oneself is a fault. Everything else asks storage first.
    pub open spec fn begin_step(self, peer: u64, command: Command) -> Step {
        if !is_registered(self.players, peer) {
            Step::Done
        } else {
            let p = self.whose(peer);
            match command {
                Command::Authenticate { rid } => Step::Ask(Request::AuthExists { rid }),
                Command::JoinQueue { competitive } => match self.join_outcome(peer, competitive) {
                    Ok(_) => Step::Done,
                    Err(fault) => Step::Disconnect(fault),
                },
                Command::SubmitAnswer { answer_index } => match self.answer_outcome(peer) {
                    Ok(_) => Step::Done,
                    Err(fault) => Step::Disconnect(fault),
                },
                Command::FetchLeaderboard => Step::Ask(Request::Leaderboard),
                Command::ChangeAvatar { pfp_blob, extension } => Step::Ask(
                    Request::SavePicture { id: p.id, pfp_blob, extension },
                ),
                Command::ChangeName { name } => Step::Ask(Request::NameTaken { name }),
                Command::FetchFriends => Step::Ask(Request::Friends { id: p.id }),
                Command::FetchFriendRequests => Step::Ask(Request::FriendRequests { id: p.id }),
                Command::AcceptFriendRequest { id } => Step::Ask(
                    Request::AcceptRemove { id, target: p.id },
                ),
                Command::DeclineFriendRequest { id } => Step::Ask(
                    Request::DeclineRemove { id, target: p.id },
                ),
                Command::SearchByName { name } => Step::Ask(Request::SearchExists { name }),
                Command::SendFriendRequest { id } => if id == p.id {
                    Step::Disconnect(Fault::SelfRequest)
                } else {
                    Step::Ask(Request::RequestFriend { id, target: p.id })
                },
            }
        }
    }

    /// The state after the first step of the handling of `command` from `peer`
    /// at `now`. Only joining the queue and answering change it.
    pub open spec fn begin(self, peer: u64, command: Command, now: i64) -> Model {
        if !is_registered(self.players, peer) {
            self
        } else {
            match command {
                Command::JoinQueue { competitive } => self.join_queue(peer, competitive, now),
                Command::SubmitAnswer { answer_index } => self.submit_answer(
                    peer,
                    answer_index,
                    now,
                ),
                _ => self,
            }
        }
    }

    /// How the handling of a command from `peer` stands after storage answered
    /// `request` with `reply`. A reply of the wrong kind counts as a failure. A
    /// failure terminates the connection, except in a search, which then shows
    /// nobody, and in sending a friend request, where it is passed over.
    pub open spec fn resume_step(self, peer: u64, request: Request, reply: Reply) -> Step {
        if !is_registered(self.players, peer) {
            Step::Done
        } else {
            let p = self.whose(peer);
            let asker = index_of(self.players, peer);
            match request {
                Request::AuthExists { rid } => match reply {
                    Reply::Exists(exists) => if exists {
                        Step::Ask(Request::AuthLoad { rid })
                    } else {
                        Step::Ask(Request::AuthInsert { rid })
                    },
                    _ => Step::Disconnect(Fault::Storage),
                },
                Request::AuthInsert { rid } => match reply {
                    Reply::Done => Step::Ask(Request::AuthLoad { rid }),
                    _ => Step::Disconnect(Fault::Storage),
                },
                Request::AuthLoad { rid } => match reply {
                    Reply::Player(record) => Step::Done,
                    _ => Step::Disconnect(Fault::Storage),
                },
                Request::Leaderboard => match reply {
                    Reply::Leaderboard(rows) => Step::Done,
                    _ => Step::Disconnect(Fault::Storage),
                },
                Request::SavePicture { id, pfp_blob, extension } => match reply {
                    Reply::Done => Step::Done,
                    _ => Step::Disconnect(Fault::Storage),
                },
                Request::NameTaken { name } => match reply {
                    Reply::Exists(exists) => if exists {
                        Step::Done
                    } else {
                        Step::Ask(Request::SaveName { id: p.id, name })
                    },
                    _ => Step::Disconnect(Fault::Storage),
                },
                Request::SaveName { id, name } => match reply {
                    Reply::Done => Step::Done,
                    _ => Step::Disconnect(Fault::Storage),
                },
                Request::Friends { id } => match reply {
                    Reply::Friends(friends) => Step::Done,
                    _ => Step::Disconnect(Fault::Storage),
                },
                Request::FriendRequests { id } => match reply {
                    Reply::FriendRequests(requests) => Step::Done,
                    _ => Step::Disconnect(Fault::Storage),
                },
                Request::AcceptRemove { id, target } => match reply {
                    Reply::Done => Step::Ask(Request::AcceptLink { id: target, target: id }),
                    _ => Step::Disconnect(Fault::Storage),
                },
                Request::AcceptLink { id, target } => match reply {
                    Reply::Done => Step::Ask(Request::AcceptLinkBack { id: target, target: id }),
                    _ => Step::Disconnect(Fault::Storage),
                },
                Request::AcceptLinkBack { id, target } => match reply {
                    Reply::Done => Step::Done,
                    _ => Step::Disconnect(Fault::Storage),
                },
                Request::DeclineRemove { id, target } => match reply {
                    Reply::Done => Step::Done,
                    _ => Step::Disconnect(Fault::Storage),
                },
                Request::SearchExists { name } => match reply {
                    Reply::Exists(exists) => if exists && !same_ignoring_ascii_case(p.name, name@) {
                        Step::Ask(Request::SearchPicture { name })
                    } else {
                        Step::Done
                    },
                    _ => Step::Done,
                },
                Request::SearchPicture { name } => Step::Done,
                Request::RequestFriend { id, target } => Step::Done,
            }
        }
    }

    /// The state after storage answered `request` with `reply` in the handling
    /// of a command from `peer`.
    pub open spec fn resumed(self, peer: u64, request: Request, reply: Reply) -> Model {
        if !is_registered(self.players, peer) {
            self
        } else {
            let p = self.whose(peer);
            let asker = index_of(self.players, peer);
            match request {
                Request::AuthExists { rid } => match reply {
                    Reply::Exists(exists) => self,
                    _ => self.post(peer, auth_refused()),
                },
                Request::AuthInsert { rid } => match reply {
                    Reply::Done => self,
                    _ => self.post(peer, auth_refused()),
                },
                Request::AuthLoad { rid } => match reply {
                    Reply::Player(record) => self.with_player(peer, loaded(p, record)).post(
                        peer,
                        auth_response_fields(
                            record.name@,
                            record.pfp_blob@,
                            record.pfp_ext@,
                            false,
                        ),
                    ),
                    _ => self.post(peer, auth_refused()),
                },
                Request::Leaderboard => match reply {
                    Reply::Leaderboard(rows) => self.post(peer, leaderboard_fields(rows@)),
                    _ => self,
                },
                Request::SavePicture { id, pfp_blob, extension } => match reply {
                    Reply::Done => self.with_player(
                        peer,
                        PlayerView { pfp_blob: pfp_blob@, pfp_ext: extension@, ..p },
                    ).post(peer, change_profile_picture_fields(pfp_blob@, extension@)),
                    _ => self,
                },
                Request::NameTaken { name } => match reply {
                    Reply::Exists(exists) => if exists {
                        self.post(peer, update_name_fields(name@, true))
                    } else {
                        self
                    },
                    _ => self,
                },
                Request::SaveName { id, name } => match reply {
                    Reply::Done => self.with_player(peer, PlayerView { name: name@, ..p }).post(
                        peer,
                        update_name_fields(name@, false),
                    ),
                    _ => self,
                },
                Request::Friends { id } => match reply {
                    Reply::Friends(friends) => self.post(
                        peer,
                        friends_fields(shown_friends(self.players, asker, friends@)),
                    ),
                    _ => self,
                },
                Request::FriendRequests { id } => match reply {
                    Reply::FriendRequests(requests) => self.post(
                        peer,
                        friend_requests_fields(shown_requests(self.players, asker, requests@)),
                    ),
                    _ => self,
                },
                Request::SearchExists { name } => match reply {
                    Reply::Exists(exists) => if exists && !same_ignoring_ascii_case(p.name, name@) {
                        self
                    } else {
                        self.post(peer, nobody_found())
                    },
                    _ => self.post(peer, nobody_found()),
                },
                Request::SearchPicture { name } => match reply {
                    Reply::Picture(blob, ext) => self.post(
                        peer,
                        search_name_fields(true, name@, blob@, ext@),
                    ),
                    _ => self.post(peer, nobody_found()),
                },
                _ => self,
            }
        }
    }
}

/// Tells the player at `i` that its authentication failed.
fn refuse_auth(state: &mut State, i: usize) -> (step: Step)
    requires
        i < old(state)@.players.len(),
    ensures
        step == Step::Disconnect(Fault::Storage),
        final(state)@ == old(state)@.post(old(state)@.players[i as int].peer_id, auth_refused()),
{
    let nothing: Vec<u8> = Vec::new();
    proof {
        reveal_strlit("");
        assert(""@ =~= Seq::<char>::empty());
    }
    let queued = state.players[i].send_auth_response(&mut state.packets, "", nothing.as_slice(), "", true);
    note_unsent(&mut state.unsent, state.players[i].peer_id, queued);
    Step::Disconnect(Fault::Storage)
}

/// Tells the player at `i` that its search shows nobody.
fn show_nobody(state: &mut State, i: usize) -> (step: Step)
    requires
        i < old(state)@.players.len(),
    ensures
        step == Step::Done,
        final(state)@ == old(state)@.post(old(state)@.players[i as int].peer_id, nobody_found()),
{
    let nothing: Vec<u8> = Vec::new();
    proof {
        reveal_strlit("");
        assert(""@ =~= Seq::<char>::empty());
    }
    let queued = state.players[i].send_search_name(&mut state.packets, false, "", nothing.as_slice(), "");
    note_unsent(&mut state.unsent, state.players[i].peer_id, queued);
    Step::Done
}

/// Takes the first step in handling `command`, which the player of `peer_id`
/// sent at `now`.
pub fn handle_command(state: &mut State, peer_id: u64, command: Command, now: i64) -> (step: Step)
    requires
        old(state).wf(),
    ensures
        step == old(state)@.begin_step(peer_id, command),
        final(state)@ == old(state)@.begin(peer_id, command, now),
        final(state).wf(),
{
    let i = match state.find_player(peer_id) {
        Some(i) => i,
        None => {
            return Step::Done;
        },
    };
    let id = state.players[i].id;
    match command {
        Command::Authenticate { rid } => Step::Ask(Request::AuthExists { rid }),
        Command::JoinQueue { competitive } => match state.join_queue(peer_id, competitive, now) {
            Ok(_) => Step::Done,
            Err(fault) => Step::Disconnect(fault),
        },
        Command::SubmitAnswer { answer_index } => match state.submit_answer(
            peer_id,
            answer_index,
            now,
        ) {
            Ok(_) => Step::Done,
            Err(fault) => Step::Disconnect(fault),
        },
        Command::FetchLeaderboard => Step::Ask(Request::Leaderboard),
        Command::ChangeAvatar { pfp_blob, extension } => Step::Ask(
            Request::SavePicture { id, pfp_blob, extension },
        ),
        Command::ChangeName { name } => Step::Ask(Request::NameTaken { name }),
        Command::FetchFriends => Step::Ask(Request::Friends { id }),
        Command::FetchFriendRequests => Step::Ask(Request::FriendRequests { id }),
        Command::AcceptFriendRequest { id: sender } => Step::Ask(
            Request::AcceptRemove { id: sender, target: id },
        ),
        Command::DeclineFriendRequest { id: sender } => Step::Ask(
            Request::DeclineRemove { id: sender, target: id },
        ),
        Command::SearchByName { name } => Step::Ask(Request::SearchExists { name }),
        Command::SendFriendRequest { id: other } => if other == id {
            Step::Disconnect(Fault::SelfRequest)
        } else {
            Step::Ask(Request::RequestFriend { id: other, target: id })
        },
    }
}

/// Goes on handling a command of the player of `peer_id` with what storage
/// answered to `request`.
pub fn resume(state: &mut State, peer_id: u64, request: Request, reply: Reply) -> (step: Step)
    requires
        old(state).wf(),
    ensures
        step == old(state)@.resume_step(peer_id, request, reply),
        final(state)@ == old(state)@.resumed(peer_id, request, reply),
        final(state).wf(),
{
    let ghost before = state@;
    let i = match state.find_player(peer_id) {
        Some(i) => i,
        None => {
            return Step::Done;
        },
    };
    let step = match request {
        Request::AuthExists { rid } => match reply {
            Reply::Exists(exists) => if exists {
                Step::Ask(Request::AuthLoad { rid })
            } else {
                Step::Ask(Request::AuthInsert { rid })
            },
            _ => refuse_auth(state, i),
        },
        Request::AuthInsert { rid } => match reply {
            Reply::Done => Step::Ask(Request::AuthLoad { rid }),
            _ => refuse_auth(state, i),
        },
        Request::AuthLoad { rid } => match reply {
            Reply::Player(record) => {
                state.players[i].id = record.id;
                state.players[i].rid = record.rid;
                state.players[i].name = record.name;
                state.players[i].rating = record.rating;
                state.players[i].win_count = record.win_count;
                state.players[i].lose_count = record.lose_count;
                state.players[i].pfp_blob = record.pfp_blob;
                state.players[i].pfp_ext = record.pfp_ext;
                assert(state@.players =~= before.players.update(
                    i as int,
                    loaded(before.players[i as int], record),
                ));
                let queued = state.players[i].send_auth_response(
                    &mut state.packets,
                    state.players[i].name.as_str(),
                    state.players[i].pfp_blob.as_slice(),
                    state.players[i].pfp_ext.as_str(),
                    false,
                );
                note_unsent(&mut state.unsent, state.players[i].peer_id, queued);
                Step::Done
            },
            _ => refuse_auth(state, i),
        },
        Request::Leaderboard => match reply {
            Reply::Leaderboard(rows) => {
                let queued = state.players[i].send_leaderboard(&mut state.packets, rows);
                note_unsent(&mut state.unsent, state.players[i].peer_id, queued);
                Step::Done
            },
            _ => Step::Disconnect(Fault::Storage),
        },
        Request::SavePicture { id, pfp_blob, extension } => match reply {
            Reply::Done => {
                state.players[i].pfp_blob = pfp_blob;
                state.players[i].pfp_ext = extension;
                assert(state@.players =~= before.players.update(
                    i as int,
                    PlayerView {
                        pfp_blob: pfp_blob@,
                        pfp_ext: extension@,
                        ..before.players[i as int]
                    },
                ));
                let queued = state.players[i].send_change_profile_picture(
                    &mut state.packets,
                    state.players[i].pfp_blob.as_slice(),
                    state.players[i].pfp_ext.as_str(),
                );
                note_unsent(&mut state.unsent, state.players[i].peer_id, queued);
                Step::Done
            },
            _ => Step::Disconnect(Fault::Storage),
        },
        Request::NameTaken { name } => match reply {
            Reply::Exists(exists) => if exists {
                let queued = state.players[i].send_update_name(&mut state.packets, name.as_str(), true);
                note_unsent(&mut state.unsent, state.players[i].peer_id, queued);
                Step::Done
            } else {
                Step::Ask(Request::SaveName { id: state.players[i].id, name })
            },
            _ => Step::Disconnect(Fault::Storage),
        },
        Request::SaveName { id, name } => match reply {
            Reply::Done => {
                state.players[i].name = name;
                assert(state@.players =~= before.players.update(
                    i as int,
                    PlayerView { name: name@, ..before.players[i as int] },
                ));
                let queued = state.players[i].send_update_name(
                    &mut state.packets,
                    state.players[i].name.as_str(),
                    false,
                );
                note_unsent(&mut state.unsent, state.players[i].peer_id, queued);
                Step::Done
            },
            _ => Step::Disconnect(Fault::Storage),
        },
        Request::Friends { id } => match reply {
            Reply::Friends(friends) => {
                let mut friends = friends;
                state.fill_friends(i, &mut friends);
                let queued = state.players[i].send_friends(&mut state.packets, friends);
                note_unsent(&mut state.unsent, state.players[i].peer_id, queued);
                Step::Done
            },
            _ => Step::Disconnect(Fault::Storage),
        },
        Request::FriendRequests { id } => match reply {
            Reply::FriendRequests(requests) => {
                let mut requests = requests;
                state.fill_requests(i, &mut requests);
                let queued = state.players[i].send_friend_requests(&mut state.packets, requests);
                note_unsent(&mut state.unsent, state.players[i].peer_id, queued);
                Step::Done
            },
            _ => Step::Disconnect(Fault::Storage),
        },
        Request::AcceptRemove { id, target } => match reply {
            Reply::Done => Step::Ask(Request::AcceptLink { id: target, target: id }),
            _ => Step::Disconnect(Fault::Storage),
        },
        Request::AcceptLink { id, target } => match reply {
            Reply::Done => Step::Ask(Request::AcceptLinkBack { id: target, target: id }),
            _ => Step::Disconnect(Fault::Storage),
        },
        Request::AcceptLinkBack { id, target } => match reply {
            Reply::Done => Step::Done,
            _ => Step::Disconnect(Fault::Storage),
        },
        Request::DeclineRemove { id, target } => match reply {
            Reply::Done => Step::Done,
            _ => Step::Disconnect(Fault::Storage),
        },
        Request::SearchExists { name } => match reply {
            Reply::Exists(exists) => if exists && !eq_ignore_ascii_case(
                state.players[i].name.as_str(),
                name.as_str(),
            ) {
                Step::Ask(Request::SearchPicture { name })
            } else {
                show_nobody(state, i)
            },
            _ => show_nobody(state, i),
        },
        Request::SearchPicture { name } => match reply {
            Reply::Picture(blob, ext) => {
                let queued = state.players[i].send_search_name(
                    &mut state.packets,
                    true,
                    name.as_str(),
                    blob.as_slice(),
                    ext.as_str(),
                );
                note_unsent(&mut state.unsent, state.players[i].peer_id, queued);
                Step::Done
            },
            _ => show_nobody(state, i),
        },
        Request::RequestFriend { id, target } => Step::Done,
    };
    proof {
        lemma_same_peers_wf(before, state@);
    }
    step
}

/// Handles a document that arrived at `now` from the player of `peer_id`: reads
/// it as a command and takes the first step in handling that command. A
/// document of an unknown connection is ignored; one that is no command
/// terminates the connection and changes nothing.
pub fn handle_incoming_packet(state: &mut State, peer_id: u64, bson: &Document, now: i64) -> (step:
    Step)
    requires
        old(state).wf(),
    ensures
        final(state).wf(),
        !is_registered(old(state)@.players, peer_id) ==> step == Step::Done && final(state)@ == old(state)@,
        is_registered(old(state)@.players, peer_id) ==> match decoded(fields(*bson)) {
            Err(fault) => step == Step::Disconnect(fault) && final(state)@ == old(state)@,
            Ok(expected) => exists|command: Command|
                command@ == expected && step == old(state)@.begin_step(peer_id, command) && final(state)@ == old(state)@.begin(peer_id, command, now),
        },
{
    if state.find_player(peer_id).is_none() {
        return Step::Done;
    }
    match decode(bson) {
        Ok(command) => handle_command(state, peer_id, command, now),
        Err(fault) => Step::Disconnect(fault),
    }
}

/// Handles what the transport reported of the connection `peer_id` at `now`. A
/// new connection gets a player, a closed one loses it. Bytes received from a
/// known connection are read as a document and handled as
/// `handle_incoming_packet` says; bytes that are no document terminate the
/// connection.
pub fn host_service(state: &mut State, peer_id: u64, event: Event, now: i64) -> (step: Step)
    requires
        old(state).wf(),
    ensures
        final(state).wf(),
        event is Connect ==> step == Step::Done && final(state)@ == old(state)@.add_player(peer_id),
        event is Disconnect ==> step == Step::Done && final(state)@ == old(state)@.remove_player(
            peer_id,
        ),
        event matches Event::Receive(bytes) ==> {
            if !is_registered(old(state)@.players, peer_id) {
                step == Step::Done && final(state)@ == old(state)@
            } else {
                match parsed(bytes@) {
                    None => step == Step::Disconnect(Fault::Unreadable) && final(state)@ == old(state)@,
                    Some(entries) => match decoded(entries) {
                        Err(fault) => step == Step::Disconnect(fault) && final(state)@ == old(state)@,
                        Ok(expected) => exists|command: Command|
                            command@ == expected && step == old(state)@.begin_step(
                                peer_id,
                                command,
                            ) && final(state)@ == old(state)@.begin(peer_id, command, now),
                    },
                }
            }
        },
{
    match event {
        Event::Connect => {
            state.add_player(peer_id);
            Step::Done
        },
        Event::Disconnect => {
            state.remove_player(peer_id);
            Step::Done
        },
        Event::Receive(bytes) => {
            if state.find_player(peer_id).is_none() {
                return Step::Done;
            }
            match doc_from_slice(bytes.as_slice()) {
                Some(bson) => handle_incoming_packet(state, peer_id, &bson, now),
                None => Step::Disconnect(Fault::Unreadable),
            }
        },
    }
}

/// Hands over every document waiting to be delivered, in the order in which
/// they were queued, and leaves the queue empty.
pub fn send_packets(state: &mut State) -> (out: Vec<PacketSent>)
    requires
        old(state).wf(),
    ensures
        crate::player::queue_view(out@) == old(state)@.packets,
        final(state)@ == (Model { packets: Seq::empty(), ..old(state)@ }),
        final(state).wf(),
{
    let mut out: Vec<PacketSent> = Vec::new();
    std::mem::swap(&mut out, &mut state.packets);
    assert(state@.packets =~= Seq::empty());
    out
}

/// Hands over every rating and record waiting to be stored, in the order in
/// which they were queued, and leaves the queue empty.
pub fn take_saves(state: &mut State) -> (out: Vec<RankUpdate>)
    requires
        old(state).wf(),
    ensures
        out@ == old(state)@.saves,
        final(state)@ == (Model { saves: Seq::empty(), ..old(state)@ }),
        final(state).wf(),
{
    let mut out: Vec<RankUpdate> = Vec::new();
    std::mem::swap(&mut out, &mut state.saves);
    out
}

/// Hands over the connections a document was meant for that could not be
/// encoded, in the order in which that happened, and leaves the list empty.
pub fn take_unsent(state: &mut State) -> (out: Vec<u64>)
    requires
        old(state).wf(),
    ensures
        out@ == old(state)@.unsent,
        final(state)@ == (Model { unsent: Seq::empty(), ..old(state)@ }),
        final(state).wf(),
{
    let mut out: Vec<u64> = Vec::new();
    std::mem::swap(&mut out, &mut state.unsent);
    out
}

} // verus!
