//! What is exchanged with the storage collaborator.
//!
//! The server never calls storage. Where a command needs it, the handler stops
//! with a `Request`; the caller carries it out and resumes the handler with the
//! `Reply`.

use vstd::prelude::*;

verus! {

/// One entry of a player's friend list. As it comes from storage it holds the
/// friend's stored profile picture and is not marked as online.
#[derive(Clone, Debug, PartialEq, Eq)]
pub struct FriendInfo {
    pub id: i32,
    pub name: String,
    pub online: bool,
    pub pfp_ext: String,
    pub pfp: Vec<u8>,
}

/// One pending friend request addressed to a player. As it comes from storage
/// it holds the sender's stored profile picture.
#[derive(Clone, Debug, PartialEq, Eq)]
pub struct FriendRequestInfo {
    pub id: i32,
    pub name: String,
    pub pfp_ext: String,
    pub pfp: Vec<u8>,
}

/// One row of the leaderboard.
#[derive(Clone, Debug, PartialEq, Eq)]
pub struct LeaderboardInfo {
    pub win: i32,
    pub lose: i32,
    pub rating: i32,
    pub name: String,
    pub pfp_ext: String,
    pub pfp: Vec<u8>,
}

/// A player's rating and record as they are to be stored after a match.
#[derive(Clone, Copy, Debug, PartialEq, Eq, Structural)]
pub struct RankUpdate {
    pub id: i32,
    pub rating: i32,
    pub win_count: i32,
    pub lose_count: i32,
}

/// A stored player.
#[derive(Clone, Debug, PartialEq, Eq)]
pub struct PlayerRecord {
    pub id: i32,
    pub rid: String,
    pub name: String,
    pub rating: i32,
    pub win_count: i32,
    pub lose_count: i32,
    pub pfp_blob: Vec<u8>,
    pub pfp_ext: String,
}

/// One query or update, named after the step of the command that needs it.
#[derive(Clone, Debug, PartialEq, Eq)]
pub enum Request {
    /// Is there a player with this external identity?
    AuthExists { rid: String },
    /// Create a player for this external identity.
    AuthInsert { rid: String },
    /// Load the player with this external identity.
    AuthLoad { rid: String },
    /// Load the top of the leaderboard.
    Leaderboard,
    /// Store a player's profile picture.
    SavePicture { id: i32, pfp_blob: Vec<u8>, extension: String },
    /// Is there a player with this name? Asked before a rename.
    NameTaken { name: String },
    /// Store a player's name.
    SaveName { id: i32, name: String },
    /// Load the friends of a player, each with its own stored profile
    /// picture.
    Friends { id: i32 },
    /// Load the friend requests addressed to a player, each with the stored
    /// profile picture of its sender.
    FriendRequests { id: i32 },
    /// Delete the friend request of `id` to `target`, which `target` accepts.
    AcceptRemove { id: i32, target: i32 },
    /// Make `target` a friend of `id`, first half of an accepted request.
    AcceptLink { id: i32, target: i32 },
    /// Make `target` a friend of `id`, second half of an accepted request.
    AcceptLinkBack { id: i32, target: i32 },
    /// Delete the friend request of `id` to `target`, which `target` declines.
    DeclineRemove { id: i32, target: i32 },
    /// Is there a player with this name? Asked by a search.
    SearchExists { name: String },
    /// Load the profile picture of the player with this name.
    SearchPicture { name: String },
    /// Record a friend request between `id` and `target`.
    RequestFriend { id: i32, target: i32 },
}

/// What storage answered.
#[derive(Clone, Debug, PartialEq, Eq)]
pub enum Reply {
    /// The query or update failed.
    Failed,
    /// The update was made.
    Done,
    Exists(bool),
    Player(PlayerRecord),
    Leaderboard(Vec<LeaderboardInfo>),
    Picture(Vec<u8>, String),
    Friends(Vec<FriendInfo>),
    FriendRequests(Vec<FriendRequestInfo>),
}

} // verus!
