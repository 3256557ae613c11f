//! A connected player and the documents the server sends to it.

use vstd::prelude::*;
use bson::Document;
use crate::database::{FriendInfo, FriendRequestInfo, LeaderboardInfo};
use crate::protocol;
use crate::state::{GameQuestion, PacketSent};
use crate::wire::{
    doc_new, doc_put_binary, doc_put_bool, doc_put_i32, doc_put_records, doc_put_str, doc_to_vec,
    fields, put, wire_image, Fields, Value,
};

verus! {

/// Server-side state of one connection.
#[derive(Clone, Debug)]
pub struct Player {
    /// Handle of the connection this player arrived on.
    pub peer_id: u64,
    /// Storage id; 0 until the player has authenticated.
    pub id: i32,
    pub rating: i32,
    /// Points scored in the current match.
    pub points: i32,
    pub win_count: i32,
    pub lose_count: i32,
    /// The match this player was last paired into. Settlement takes the
    /// reference away. It outlives a match that ends because the opponent
    /// disconnects, until the player asks to be matched again.
    pub game_id: Option<u64>,
    /// Whether the player has answered the current question.
    pub answered: bool,
    pub rid: String,
    pub name: String,
    pub pfp_ext: String,
    pub pfp_blob: Vec<u8>,
}

/// A player as plain values.
pub struct PlayerView {
    pub peer_id: u64,
    pub id: i32,
    pub rating: i32,
    pub points: i32,
    pub win_count: i32,
    pub lose_count: i32,
    pub game_id: Option<u64>,
    pub answered: bool,
    pub rid: Seq<char>,
    pub name: Seq<char>,
    pub pfp_ext: Seq<char>,
    pub pfp_blob: Seq<u8>,
}

impl View for Player {
    type V = PlayerView;

    open spec fn view(&self) -> PlayerView {
        PlayerView {
            peer_id: self.peer_id,
            id: self.id,
            rating: self.rating,
            points: self.points,
            win_count: self.win_count,
            lose_count: self.lose_count,
            game_id: self.game_id,
            answered: self.answered,
            rid: self.rid@,
            name: self.name@,
            pfp_ext: self.pfp_ext@,
            pfp_blob: self.pfp_blob@,
        }
    }
}

impl PlayerView {
    /// The player as it is right after connecting on `peer_id`.
    pub open spec fn fresh(peer_id: u64) -> PlayerView {
        PlayerView {
            peer_id,
            id: 0,
            rating: 0,
            points: 0,
            win_count: 0,
            lose_count: 0,
            game_id: None,
            answered: false,
            rid: Seq::empty(),
            name: Seq::empty(),
            pfp_ext: Seq::empty(),
            pfp_blob: Seq::empty(),
        }
    }
}

/// The outbound queue as connection handles paired with encoded bytes.
pub open spec fn queue_view(q: Seq<PacketSent>) -> Seq<(u64, Seq<u8>)> {
    Seq::new(q.len(), |i: int| (q[i].0, q[i].1@))
}

/// Whether a document with the entries `f` can be encoded.
pub open spec fn encodes(f: Fields) -> bool {
    wire_image(f) is Some
}

/// The queue `q` after a document with entries `f` was posted to `peer`. A
/// document that cannot be encoded is not queued.
pub open spec fn sent(q: Seq<(u64, Seq<u8>)>, peer: u64, f: Fields) -> Seq<(u64, Seq<u8>)> {
    match wire_image(f) {
        Some(bytes) => q.push((peer, bytes)),
        None => q,
    }
}

/// The answer to an authentication: the player's name and picture, or, with
/// `error` set, nothing.
pub open spec fn auth_response_fields(
    name: Seq<char>,
    pfp_blob: Seq<u8>,
    pfp_ext: Seq<char>,
    error: bool,
) -> Fields {
    let f = Seq::empty();
    let f = put(f, "PacketID"@, Value::Int32(protocol::PACKET_ID_AUTHENTICATION));
    let f = put(f, "Name"@, Value::Text(name));
    let f = put(f, "Error"@, Value::Flag(error));
    let f = put(f, "ProfilePicture"@, Value::Blob(pfp_blob));
    put(f, "ProfilePictureExtension"@, Value::Text(pfp_ext))
}

/// The news that a match was found, with the opponent's name and picture.
pub open spec fn match_notify_fields(name: Seq<char>, pfp_blob: Seq<u8>, pfp_ext: Seq<char>) -> Fields {
    let f = Seq::empty();
    let f = put(f, "PacketID"@, Value::Int32(protocol::PACKET_ID_ADD_QUEUE));
    let f = put(f, "Name"@, Value::Text(name));
    let f = put(f, "ProfilePicture"@, Value::Blob(pfp_blob));
    put(f, "ProfilePictureExtension"@, Value::Text(pfp_ext))
}

/// A question with its four options, the receiver's points and the
/// opponent's. The index of the right option is not part of it.
pub open spec fn question_update_fields(points: i32, enemy_points: i32, question: GameQuestion) -> Fields {
    let f = Seq::empty();
    let f = put(f, "PacketID"@, Value::Int32(protocol::PACKET_ID_UPDATE_QUESTION));
    let f = put(f, "Points"@, Value::Int32(points));
    let f = put(f, "Question"@, Value::Text(question.question@));
    let f = put(f, "EnemyPoints"@, Value::Int32(enemy_points));
    let f = put(f, "AnswerOption1"@, Value::Text(question.answer_option_1@));
    let f = put(f, "AnswerOption2"@, Value::Text(question.answer_option_2@));
    let f = put(f, "AnswerOption3"@, Value::Text(question.answer_option_3@));
    put(f, "AnswerOption4"@, Value::Text(question.answer_option_4@))
}

/// The index of the right option, sent back to a player who has answered.
pub open spec fn answer_fields(answer_index: i32) -> Fields {
    let f = Seq::empty();
    let f = put(f, "PacketID"@, Value::Int32(protocol::PACKET_ID_QUESTION_ANSWER));
    put(f, "AnswerIndex"@, Value::Int32(answer_index))
}

/// The answer to a rename: the name asked for, and whether it was taken.
pub open spec fn update_name_fields(name: Seq<char>, error: bool) -> Fields {
    let f = Seq::empty();
    let f = put(f, "PacketID"@, Value::Int32(protocol::PACKET_ID_UPDATE_NAME));
    let f = put(f, "Name"@, Value::Text(name));
    put(f, "Error"@, Value::Flag(error))
}

/// The end of a match, with the winner's name.
pub open spec fn game_ended_fields(winner: Seq<char>) -> Fields {
    let f = Seq::empty();
    let f = put(f, "PacketID"@, Value::Int32(protocol::PACKET_ID_GAME_ENDED));
    put(f, "Winner"@, Value::Text(winner))
}

/// The record sent for one friend or one friend request.
pub open spec fn profile_fields(id: i32, name: Seq<char>, pfp: Seq<u8>, pfp_ext: Seq<char>) -> Fields {
    let f = Seq::empty();
    let f = put(f, "ID"@, Value::Int32(id));
    let f = put(f, "Name"@, Value::Text(name));
    let f = put(f, "ProfilePicture"@, Value::Blob(pfp));
    put(f, "ProfilePictureExtension"@, Value::Text(pfp_ext))
}

/// The records sent for a list of friends.
pub open spec fn friend_records(friends: Seq<FriendInfo>) -> Seq<Fields> {
    Seq::new(
        friends.len(),
        |i: int| profile_fields(friends[i].id, friends[i].name@, friends[i].pfp@, friends[i].pfp_ext@),
    )
}

/// The records sent for a list of friend requests.
pub open spec fn friend_request_records(requests: Seq<FriendRequestInfo>) -> Seq<Fields> {
    Seq::new(
        requests.len(),
        |i: int|
            profile_fields(requests[i].id, requests[i].name@, requests[i].pfp@, requests[i].pfp_ext@),
    )
}

/// A list of friends, one record each.
pub open spec fn friends_fields(records: Seq<Fields>) -> Fields {
    let f = Seq::empty();
    let f = put(f, "PacketID"@, Value::Int32(protocol::PACKET_ID_FETCH_FRIENDS));
    put(f, "Friends"@, Value::Records(records))
}

/// A list of friend requests, one record each.
pub open spec fn friend_requests_fields(records: Seq<Fields>) -> Fields {
    let f = Seq::empty();
    let f = put(f, "PacketID"@, Value::Int32(protocol::PACKET_ID_FETCH_FRIEND_REQUESTS));
    put(f, "FriendRequests"@, Value::Records(records))
}

/// The answer to a search: whether a player was found, and its name and
/// picture.
pub open spec fn search_name_fields(
    found: bool,
    name: Seq<char>,
    pfp_blob: Seq<u8>,
    pfp_ext: Seq<char>,
) -> Fields {
    let f = Seq::empty();
    let f = put(f, "PacketID"@, Value::Int32(protocol::PACKET_ID_SEARCH_NAME));
    let f = put(f, "Name"@, Value::Text(name));
    let f = put(f, "Found"@, Value::Flag(found));
    let f = put(f, "ProfilePicture"@, Value::Blob(pfp_blob));
    put(f, "ProfilePictureExtension"@, Value::Text(pfp_ext))
}

/// The record sent for one leaderboard row.
pub open spec fn leaderboard_row_fields(row: LeaderboardInfo) -> Fields {
    let f = Seq::empty();
    let f = put(f, "Win"@, Value::Int32(row.win));
    let f = put(f, "Lose"@, Value::Int32(row.lose));
    let f = put(f, "Name"@, Value::Text(row.name@));
    let f = put(f, "Rating"@, Value::Int32(row.rating));
    let f = put(f, "ProfilePicture"@, Value::Blob(row.pfp@));
    put(f, "ProfilePictureExtension"@, Value::Text(row.pfp_ext@))
}

/// The leaderboard, one record for each row.
pub open spec fn leaderboard_fields(leaderboard: Seq<LeaderboardInfo>) -> Fields {
    let records = Seq::new(leaderboard.len(), |i: int| leaderboard_row_fields(leaderboard[i]));
    let f = Seq::empty();
    let f = put(f, "PacketID"@, Value::Int32(protocol::PACKET_ID_FETCH_LEADERBOARD));
    put(f, "Leaderboard"@, Value::Records(records))
}

/// The profile picture a player has changed to.
pub open spec fn change_profile_picture_fields(pfp_blob: Seq<u8>, pfp_ext: Seq<char>) -> Fields {
    let f = Seq::empty();
    let f = put(f, "PacketID"@, Value::Int32(protocol::PACKET_ID_CHANGE_PROFILE_PICTURE));
    let f = put(f, "ProfilePicture"@, Value::Blob(pfp_blob));
    put(f, "ProfilePictureExtension"@, Value::Text(pfp_ext))
}

impl Player {
    /// A player that has just connected: not authenticated, not in a match.
    pub fn new(peer_id: u64) -> (p: Player)
        ensures
            p@ == PlayerView::fresh(peer_id),
    {
        Player {
            id: 0,
            rating: 0,
            points: 0,
            win_count: 0,
            lose_count: 0,
            game_id: None,
            answered: false,
            rid: String::new(),
            name: String::new(),
            pfp_ext: String::new(),
            pfp_blob: Vec::new(),
            peer_id,
        }
    }

    /// Encodes `bson` and appends it to `packets`, addressed to this player.
    /// Returns whether it did: a document that cannot be encoded is not queued.
    pub fn send_packet(&self, packets: &mut Vec<PacketSent>, bson: Document) -> (queued: bool)
        ensures
            queue_view(final(packets)@) == sent(queue_view(old(packets)@), self.peer_id, fields(bson)),
            queued == encodes(fields(bson)),
    {
        match doc_to_vec(&bson) {
            Some(bytes) => {
                packets.push((self.peer_id, bytes));
                true
            },
            None => false,
        }
    }

    /// Queues the answer to an authentication.
    pub fn send_auth_response(
        &self,
        packets: &mut Vec<PacketSent>,
        name: &str,
        pfp_blob: &[u8],
        pfp_ext: &str,
        error: bool,
    ) -> (queued: bool)
        ensures
            queue_view(final(packets)@) == sent(
                queue_view(old(packets)@),
                self.peer_id,
                auth_response_fields(name@, pfp_blob@, pfp_ext@, error),
            ),
            queued == encodes(auth_response_fields(name@, pfp_blob@, pfp_ext@, error)),
    {
        let mut d = doc_new();
        doc_put_i32(&mut d, "PacketID", protocol::PACKET_ID_AUTHENTICATION);
        doc_put_str(&mut d, "Name", name);
        doc_put_bool(&mut d, "Error", error);
        doc_put_binary(&mut d, "ProfilePicture", pfp_blob);
        doc_put_str(&mut d, "ProfilePictureExtension", pfp_ext);
        self.send_packet(packets, d)
    }

    /// Queues the news that a match was found against the player with this
    /// name and picture.
    pub fn send_match_notify(
        &self,
        packets: &mut Vec<PacketSent>,
        name: &str,
        pfp_blob: &[u8],
        pfp_ext: &str,
    ) -> (queued: bool)
        ensures
            queue_view(final(packets)@) == sent(
                queue_view(old(packets)@),
                self.peer_id,
                match_notify_fields(name@, pfp_blob@, pfp_ext@),
            ),
            queued == encodes(match_notify_fields(name@, pfp_blob@, pfp_ext@)),
    {
        let mut d = doc_new();
        doc_put_i32(&mut d, "PacketID", protocol::PACKET_ID_ADD_QUEUE);
        doc_put_str(&mut d, "Name", name);
        doc_put_binary(&mut d, "ProfilePicture", pfp_blob);
        doc_put_str(&mut d, "ProfilePictureExtension", pfp_ext);
        self.send_packet(packets, d)
    }

    /// Queues a question together with the points of both players.
    pub fn send_question_update(
        &self,
        packets: &mut Vec<PacketSent>,
        points: i32,
        enemy_points: i32,
        question: &GameQuestion,
    ) -> (queued: bool)
        ensures
            queue_view(final(packets)@) == sent(
                queue_view(old(packets)@),
                self.peer_id,
                question_update_fields(points, enemy_points, *question),
            ),
            queued == encodes(question_update_fields(points, enemy_points, *question)),
    {
        let mut d = doc_new();
        doc_put_i32(&mut d, "PacketID", protocol::PACKET_ID_UPDATE_QUESTION);
        doc_put_i32(&mut d, "Points", points);
        doc_put_str(&mut d, "Question", question.question.as_str());
        doc_put_i32(&mut d, "EnemyPoints", enemy_points);
        doc_put_str(&mut d, "AnswerOption1", question.answer_option_1.as_str());
        doc_put_str(&mut d, "AnswerOption2", question.answer_option_2.as_str());
        doc_put_str(&mut d, "AnswerOption3", question.answer_option_3.as_str());
        doc_put_str(&mut d, "AnswerOption4", question.answer_option_4.as_str());
        self.send_packet(packets, d)
    }

    /// Queues the index of the right option.
    pub fn send_answer(&self, packets: &mut Vec<PacketSent>, answer_index: i32) -> (queued: bool)
        ensures
            queue_view(final(packets)@) == sent(
                queue_view(old(packets)@),
                self.peer_id,
                answer_fields(answer_index),
            ),
            queued == encodes(answer_fields(answer_index)),
    {
        let mut d = doc_new();
        doc_put_i32(&mut d, "PacketID", protocol::PACKET_ID_QUESTION_ANSWER);
        doc_put_i32(&mut d, "AnswerIndex", answer_index);
        self.send_packet(packets, d)
    }

    /// Queues the answer to a rename.
    pub fn send_update_name(&self, packets: &mut Vec<PacketSent>, name: &str, error: bool) -> (queued: bool)
        ensures
            queue_view(final(packets)@) == sent(
                queue_view(old(packets)@),
                self.peer_id,
                update_name_fields(name@, error),
            ),
            queued == encodes(update_name_fields(name@, error)),
    {
        let mut d = doc_new();
        doc_put_i32(&mut d, "PacketID", protocol::PACKET_ID_UPDATE_NAME);
        doc_put_str(&mut d, "Name", name);
        doc_put_bool(&mut d, "Error", error);
        self.send_packet(packets, d)
    }

    /// Queues the end of a match.
    pub fn send_game_ended(&self, packets: &mut Vec<PacketSent>, winner: &str) -> (queued: bool)
        ensures
            queue_view(final(packets)@) == sent(
                queue_view(old(packets)@),
                self.peer_id,
                game_ended_fields(winner@),
            ),
            queued == encodes(game_ended_fields(winner@)),
    {
        let mut d = doc_new();
        doc_put_i32(&mut d, "PacketID", protocol::PACKET_ID_GAME_ENDED);
        doc_put_str(&mut d, "Winner", winner);
        self.send_packet(packets, d)
    }

    /// Queues a list of friends.
    pub fn send_friends(&self, packets: &mut Vec<PacketSent>, friends: Vec<FriendInfo>) -> (queued: bool)
        ensures
            queue_view(final(packets)@) == sent(
                queue_view(old(packets)@),
                self.peer_id,
                friends_fields(friend_records(friends@)),
            ),
            queued == encodes(friends_fields(friend_records(friends@))),
    {
        let mut array: Vec<Document> = Vec::new();
        let mut i: usize = 0;
        while i < friends.len()
            invariant
                i <= friends.len(),
                array@.len() == i,
                forall|j: int|
                    0 <= j < i ==> fields(#[trigger] array@[j]) == profile_fields(
                        friends@[j].id,
                        friends@[j].name@,
                        friends@[j].pfp@,
                        friends@[j].pfp_ext@,
                    ),
            decreases friends.len() - i,
        {
            let info = &friends[i];
            let mut value = doc_new();
            doc_put_i32(&mut value, "ID", info.id);
            doc_put_str(&mut value, "Name", info.name.as_str());
            doc_put_binary(&mut value, "ProfilePicture", info.pfp.as_slice());
            doc_put_str(&mut value, "ProfilePictureExtension", info.pfp_ext.as_str());
            array.push(value);
            i += 1;
        }
        let ghost records = Seq::new(array@.len(), |j: int| fields(array@[j]));
        assert(records =~= friend_records(friends@));
        let mut d = doc_new();
        doc_put_i32(&mut d, "PacketID", protocol::PACKET_ID_FETCH_FRIENDS);
        doc_put_records(&mut d, "Friends", array);
        self.send_packet(packets, d)
    }

    /// Queues a list of friend requests.
    pub fn send_friend_requests(
        &self,
        packets: &mut Vec<PacketSent>,
        friend_requests: Vec<FriendRequestInfo>,
    ) -> (queued: bool)
        ensures
            queue_view(final(packets)@) == sent(
                queue_view(old(packets)@),
                self.peer_id,
                friend_requests_fields(friend_request_records(friend_requests@)),
            ),
            queued == encodes(friend_requests_fields(friend_request_records(friend_requests@))),
    {
        let mut array: Vec<Document> = Vec::new();
        let mut i: usize = 0;
        while i < friend_requests.len()
            invariant
                i <= friend_requests.len(),
                array@.len() == i,
                forall|j: int|
                    0 <= j < i ==> fields(#[trigger] array@[j]) == profile_fields(
                        friend_requests@[j].id,
                        friend_requests@[j].name@,
                        friend_requests@[j].pfp@,
                        friend_requests@[j].pfp_ext@,
                    ),
            decreases friend_requests.len() - i,
        {
            let info = &friend_requests[i];
            let mut value = doc_new();
            doc_put_i32(&mut value, "ID", info.id);
            doc_put_str(&mut value, "Name", info.name.as_str());
            doc_put_binary(&mut value, "ProfilePicture", info.pfp.as_slice());
            doc_put_str(&mut value, "ProfilePictureExtension", info.pfp_ext.as_str());
            array.push(value);
            i += 1;
        }
        let ghost records = Seq::new(array@.len(), |j: int| fields(array@[j]));
        assert(records =~= friend_request_records(friend_requests@));
        let mut d = doc_new();
        doc_put_i32(&mut d, "PacketID", protocol::PACKET_ID_FETCH_FRIEND_REQUESTS);
        doc_put_records(&mut d, "FriendRequests", array);
        self.send_packet(packets, d)
    }

    /// Queues the answer to a search.
    pub fn send_search_name(
        &self,
        packets: &mut Vec<PacketSent>,
        found: bool,
        name: &str,
        pfp_blob: &[u8],
        pfp_ext: &str,
    ) -> (queued: bool)
        ensures
            queue_view(final(packets)@) == sent(
                queue_view(old(packets)@),
                self.peer_id,
                search_name_fields(found, name@, pfp_blob@, pfp_ext@),
            ),
            queued == encodes(search_name_fields(found, name@, pfp_blob@, pfp_ext@)),
    {
        let mut d = doc_new();
        doc_put_i32(&mut d, "PacketID", protocol::PACKET_ID_SEARCH_NAME);
        doc_put_str(&mut d, "Name", name);
        doc_put_bool(&mut d, "Found", found);
        doc_put_binary(&mut d, "ProfilePicture", pfp_blob);
        doc_put_str(&mut d, "ProfilePictureExtension", pfp_ext);
        self.send_packet(packets, d)
    }

    /// Queues the leaderboard.
    pub fn send_leaderboard(&self, packets: &mut Vec<PacketSent>, leaderboard: Vec<LeaderboardInfo>) -> (queued: bool)
        ensures
            queue_view(final(packets)@) == sent(
                queue_view(old(packets)@),
                self.peer_id,
                leaderboard_fields(leaderboard@),
            ),
            queued == encodes(leaderboard_fields(leaderboard@)),
    {
        let mut array: Vec<Document> = Vec::new();
        let mut i: usize = 0;
        while i < leaderboard.len()
            invariant
                i <= leaderboard.len(),
                array@.len() == i,
                forall|j: int|
                    0 <= j < i ==> fields(#[trigger] array@[j]) == leaderboard_row_fields(
                        leaderboard@[j],
                    ),
            decreases leaderboard.len() - i,
        {
            let info = &leaderboard[i];
            let mut value = doc_new();
            doc_put_i32(&mut value, "Win", info.win);
            doc_put_i32(&mut value, "Lose", info.lose);
            doc_put_str(&mut value, "Name", info.name.as_str());
            doc_put_i32(&mut value, "Rating", info.rating);
            doc_put_binary(&mut value, "ProfilePicture", info.pfp.as_slice());
            doc_put_str(&mut value, "ProfilePictureExtension", info.pfp_ext.as_str());
            array.push(value);
            i += 1;
        }
        let ghost records = Seq::new(array@.len(), |j: int| fields(array@[j]));
        assert(records =~= Seq::new(
            leaderboard@.len(),
            |j: int| leaderboard_row_fields(leaderboard@[j]),
        ));
        let mut d = doc_new();
        doc_put_i32(&mut d, "PacketID", protocol::PACKET_ID_FETCH_LEADERBOARD);
        doc_put_records(&mut d, "Leaderboard", array);
        self.send_packet(packets, d)
    }

    /// Queues the profile picture the player has changed to.
    pub fn send_change_profile_picture(
        &self,
        packets: &mut Vec<PacketSent>,
        pfp_blob: &[u8],
        pfp_ext: &str,
    ) -> (queued: bool)
        ensures
            queue_view(final(packets)@) == sent(
                queue_view(old(packets)@),
                self.peer_id,
                change_profile_picture_fields(pfp_blob@, pfp_ext@),
            ),
            queued == encodes(change_profile_picture_fields(pfp_blob@, pfp_ext@)),
    {
        let mut d = doc_new();
        doc_put_i32(&mut d, "PacketID", protocol::PACKET_ID_CHANGE_PROFILE_PICTURE);
        doc_put_binary(&mut d, "ProfilePicture", pfp_blob);
        doc_put_str(&mut d, "ProfilePictureExtension", pfp_ext);
        self.send_packet(packets, d)
    }
}

} // verus!
