//! Identifiers carried in the `PacketID` field of every document, the limits
//! the dispatch layer enforces, and the reasons for which it gives up a
//! connection.

use vstd::prelude::*;

verus! {

/// Authentication, both ways.
pub const PACKET_ID_AUTHENTICATION: i32 = 0;

/// A request to be matched; back, the news that a match was found.
pub const PACKET_ID_ADD_QUEUE: i32 = 1;

/// A question for both players of a match. Only sent.
pub const PACKET_ID_UPDATE_QUESTION: i32 = 2;

/// An answer; back, the index of the right option.
pub const PACKET_ID_QUESTION_ANSWER: i32 = 3;

/// The end of a match. Only sent.
pub const PACKET_ID_GAME_ENDED: i32 = 4;

/// The leaderboard.
pub const PACKET_ID_FETCH_LEADERBOARD: i32 = 5;

/// A new profile picture.
pub const PACKET_ID_CHANGE_PROFILE_PICTURE: i32 = 6;

/// A new name.
pub const PACKET_ID_UPDATE_NAME: i32 = 7;

/// The list of friends.
pub const PACKET_ID_FETCH_FRIENDS: i32 = 8;

/// The list of friend requests.
pub const PACKET_ID_FETCH_FRIEND_REQUESTS: i32 = 9;

/// Acceptance of a friend request.
pub const PACKET_ID_ACCEPT_FRIEND_REQUEST: i32 = 10;

/// Refusal of a friend request.
pub const PACKET_ID_DECLINE_FRIEND_REQUEST: i32 = 11;

/// A search for a player by name.
pub const PACKET_ID_SEARCH_NAME: i32 = 12;

/// A friend request.
pub const PACKET_ID_ADD_FRIEND_REQUEST: i32 = 13;

/// Largest profile picture a client may upload, in bytes.
pub const MAX_PROFILE_PICTURE_BYTES: usize = 10485760;

/// Why a connection is to be terminated.
#[derive(Clone, Copy, Debug, PartialEq, Eq, Structural)]
pub enum Fault {
    /// The bytes received are not a document.
    Unreadable,
    /// The document has no 32-bit integer under `PacketID`.
    NoPacketId,
    /// No command has the id under `PacketID`.
    UnknownPacketId,
    /// A field the command needs is missing or of another type.
    BadField,
    /// The profile picture is larger than `MAX_PROFILE_PICTURE_BYTES`.
    PictureTooLarge,
    /// The player asked to be matched while it is in a live match.
    AlreadyInMatch,
    /// Two players could be paired, but every match id has been given out.
    OutOfMatchIds,
    /// The player asked for a mode it is already waiting in.
    DuplicateJoin,
    /// The player waiting in the slot is no longer connected.
    PartnerGone,
    /// The player has already answered the current question.
    AnsweredTwice,
    /// The player answered without being in a live match.
    NotInMatch,
    /// The player sent a friend request to itself.
    SelfRequest,
    /// The storage collaborator failed.
    Storage,
}

} // verus!
