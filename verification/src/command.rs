//! Commands a client may send, and how a document is read as one.

use vstd::prelude::*;
use bson::Document;
use crate::protocol;
use crate::protocol::Fault;
use crate::wire::{
    doc_get_binary_generic, doc_get_bool, doc_get_i32, doc_get_str, fields, lookup, Fields, Value,
};

verus! {

/// What a client may ask for.
#[derive(Clone, Debug, PartialEq, Eq)]
pub enum Command {
    Authenticate { rid: String },
    JoinQueue { competitive: bool },
    SubmitAnswer { answer_index: i32 },
    FetchLeaderboard,
    ChangeAvatar { pfp_blob: Vec<u8>, extension: String },
    ChangeName { name: String },
    FetchFriends,
    FetchFriendRequests,
    AcceptFriendRequest { id: i32 },
    DeclineFriendRequest { id: i32 },
    SearchByName { name: String },
    SendFriendRequest { id: i32 },
}

/// A command as plain values.
pub enum CommandView {
    Authenticate { rid: Seq<char> },
    JoinQueue { competitive: bool },
    SubmitAnswer { answer_index: i32 },
    FetchLeaderboard,
    ChangeAvatar { pfp_blob: Seq<u8>, extension: Seq<char> },
    ChangeName { name: Seq<char> },
    FetchFriends,
    FetchFriendRequests,
    AcceptFriendRequest { id: i32 },
    DeclineFriendRequest { id: i32 },
    SearchByName { name: Seq<char> },
    SendFriendRequest { id: i32 },
}

impl View for Command {
    type V = CommandView;

    open spec fn view(&self) -> CommandView {
        match *self {
            Command::Authenticate { rid } => CommandView::Authenticate { rid: rid@ },
            Command::JoinQueue { competitive } => CommandView::JoinQueue { competitive },
            Command::SubmitAnswer { answer_index } => CommandView::SubmitAnswer { answer_index },
            Command::FetchLeaderboard => CommandView::FetchLeaderboard,
            Command::ChangeAvatar { pfp_blob, extension } => CommandView::ChangeAvatar {
                pfp_blob: pfp_blob@,
                extension: extension@,
            },
            Command::ChangeName { name } => CommandView::ChangeName { name: name@ },
            Command::FetchFriends => CommandView::FetchFriends,
            Command::FetchFriendRequests => CommandView::FetchFriendRequests,
            Command::AcceptFriendRequest { id } => CommandView::AcceptFriendRequest { id },
            Command::DeclineFriendRequest { id } => CommandView::DeclineFriendRequest { id },
            Command::SearchByName { name } => CommandView::SearchByName { name: name@ },
            Command::SendFriendRequest { id } => CommandView::SendFriendRequest { id },
        }
    }
}

/// The string under `key`, or `BadField`.
pub open spec fn text_field(f: Fields, key: Seq<char>) -> Result<Seq<char>, Fault> {
    match lookup(f, key) {
        Some(Value::Text(v)) => Ok(v),
        _ => Err(Fault::BadField),
    }
}

/// The 32-bit integer under `key`, or `BadField`.
pub open spec fn int_field(f: Fields, key: Seq<char>) -> Result<i32, Fault> {
    match lookup(f, key) {
        Some(Value::Int32(v)) => Ok(v),
        _ => Err(Fault::BadField),
    }
}

/// The command that a document with the entries `f` stands for. The id under
/// `PacketID` selects the command; each command needs its own fields, of the
/// right type. A profile picture may not exceed
/// `MAX_PROFILE_PICTURE_BYTES`; its extension is looked at first.
pub open spec fn decoded(f: Fields) -> Result<CommandView, Fault> {
    match lookup(f, "PacketID"@) {
        Some(Value::Int32(id)) => if id == protocol::PACKET_ID_AUTHENTICATION {
            match text_field(f, "RID"@) {
                Ok(rid) => Ok(CommandView::Authenticate { rid }),
                Err(e) => Err(e),
            }
        } else if id == protocol::PACKET_ID_ADD_QUEUE {
            match lookup(f, "Competitive"@) {
                Some(Value::Flag(competitive)) => Ok(CommandView::JoinQueue { competitive }),
                _ => Err(Fault::BadField),
            }
        } else if id == protocol::PACKET_ID_QUESTION_ANSWER {
            match int_field(f, "AnswerIndex"@) {
                Ok(answer_index) => Ok(CommandView::SubmitAnswer { answer_index }),
                Err(e) => Err(e),
            }
        } else if id == protocol::PACKET_ID_FETCH_LEADERBOARD {
            Ok(CommandView::FetchLeaderboard)
        } else if id == protocol::PACKET_ID_CHANGE_PROFILE_PICTURE {
            match text_field(f, "ProfilePictureExtension"@) {
                Ok(extension) => match lookup(f, "ProfilePicture"@) {
                    Some(Value::Blob(pfp_blob)) => if pfp_blob.len()
                        > protocol::MAX_PROFILE_PICTURE_BYTES {
                        Err(Fault::PictureTooLarge)
                    } else {
                        Ok(CommandView::ChangeAvatar { pfp_blob, extension })
                    },
                    _ => Err(Fault::BadField),
                },
                Err(e) => Err(e),
            }
        } else if id == protocol::PACKET_ID_UPDATE_NAME {
            match text_field(f, "Name"@) {
                Ok(name) => Ok(CommandView::ChangeName { name }),
                Err(e) => Err(e),
            }
        } else if id == protocol::PACKET_ID_FETCH_FRIENDS {
            Ok(CommandView::FetchFriends)
        } else if id == protocol::PACKET_ID_FETCH_FRIEND_REQUESTS {
            Ok(CommandView::FetchFriendRequests)
        } else if id == protocol::PACKET_ID_ACCEPT_FRIEND_REQUEST {
            match int_field(f, "ID"@) {
                Ok(id) => Ok(CommandView::AcceptFriendRequest { id }),
                Err(e) => Err(e),
            }
        } else if id == protocol::PACKET_ID_DECLINE_FRIEND_REQUEST {
            match int_field(f, "ID"@) {
                Ok(id) => Ok(CommandView::DeclineFriendRequest { id }),
                Err(e) => Err(e),
            }
        } else if id == protocol::PACKET_ID_SEARCH_NAME {
            match text_field(f, "Name"@) {
                Ok(name) => Ok(CommandView::SearchByName { name }),
                Err(e) => Err(e),
            }
        } else if id == protocol::PACKET_ID_ADD_FRIEND_REQUEST {
            match int_field(f, "ID"@) {
                Ok(id) => Ok(CommandView::SendFriendRequest { id }),
                Err(e) => Err(e),
            }
        } else {
            Err(Fault::UnknownPacketId)
        },
        _ => Err(Fault::NoPacketId),
    }
}

/// Whether `r` is the command, or the fault, that `expected` names.
pub open spec fn reads_as(r: Result<Command, Fault>, expected: Result<CommandView, Fault>) -> bool {
    match r {
        Ok(command) => expected == Ok::<CommandView, Fault>(command@),
        Err(fault) => expected == Err::<CommandView, Fault>(fault),
    }
}

fn get_text(bson: &Document, key: &str) -> (r: Result<String, Fault>)
    ensures
        match r {
            Ok(s) => text_field(fields(*bson), key@) == Ok::<Seq<char>, Fault>(s@),
            Err(e) => text_field(fields(*bson), key@) == Err::<Seq<char>, Fault>(e),
        },
{
    match doc_get_str(bson, key) {
        Some(s) => Ok(s),
        None => Err(Fault::BadField),
    }
}

fn get_int(bson: &Document, key: &str) -> (r: Result<i32, Fault>)
    ensures
        r == int_field(fields(*bson), key@),
{
    match doc_get_i32(bson, key) {
        Some(v) => Ok(v),
        None => Err(Fault::BadField),
    }
}

/// Reads a document as a command.
pub fn decode(bson: &Document) -> (r: Result<Command, Fault>)
    ensures
        reads_as(r, decoded(fields(*bson))),
{
    let id = match doc_get_i32(bson, "PacketID") {
        Some(id) => id,
        None => {
            return Err(Fault::NoPacketId);
        },
    };
    if id == protocol::PACKET_ID_AUTHENTICATION {
        match get_text(bson, "RID") {
            Ok(rid) => Ok(Command::Authenticate { rid }),
            Err(e) => Err(e),
        }
    } else if id == protocol::PACKET_ID_ADD_QUEUE {
        match doc_get_bool(bson, "Competitive") {
            Some(competitive) => Ok(Command::JoinQueue { competitive }),
            None => Err(Fault::BadField),
        }
    } else if id == protocol::PACKET_ID_QUESTION_ANSWER {
        match get_int(bson, "AnswerIndex") {
            Ok(answer_index) => Ok(Command::SubmitAnswer { answer_index }),
            Err(e) => Err(e),
        }
    } else if id == protocol::PACKET_ID_FETCH_LEADERBOARD {
        Ok(Command::FetchLeaderboard)
    } else if id == protocol::PACKET_ID_CHANGE_PROFILE_PICTURE {
        let extension = match get_text(bson, "ProfilePictureExtension") {
            Ok(extension) => extension,
            Err(e) => {
                return Err(e);
            },
        };
        let pfp_blob = match doc_get_binary_generic(bson, "ProfilePicture") {
            Some(pfp_blob) => pfp_blob,
            None => {
                return Err(Fault::BadField);
            },
        };
        if pfp_blob.len() > protocol::MAX_PROFILE_PICTURE_BYTES {
            return Err(Fault::PictureTooLarge);
        }
        Ok(Command::ChangeAvatar { pfp_blob, extension })
    } else if id == protocol::PACKET_ID_UPDATE_NAME {
        match get_text(bson, "Name") {
            Ok(name) => Ok(Command::ChangeName { name }),
            Err(e) => Err(e),
        }
    } else if id == protocol::PACKET_ID_FETCH_FRIENDS {
        Ok(Command::FetchFriends)
    } else if id == protocol::PACKET_ID_FETCH_FRIEND_REQUESTS {
        Ok(Command::FetchFriendRequests)
    } else if id == protocol::PACKET_ID_ACCEPT_FRIEND_REQUEST {
        match get_int(bson, "ID") {
            Ok(id) => Ok(Command::AcceptFriendRequest { id }),
            Err(e) => Err(e),
        }
    } else if id == protocol::PACKET_ID_DECLINE_FRIEND_REQUEST {
        match get_int(bson, "ID") {
            Ok(id) => Ok(Command::DeclineFriendRequest { id }),
            Err(e) => Err(e),
        }
    } else if id == protocol::PACKET_ID_SEARCH_NAME {
        match get_text(bson, "Name") {
            Ok(name) => Ok(Command::SearchByName { name }),
            Err(e) => Err(e),
        }
    } else if id == protocol::PACKET_ID_ADD_FRIEND_REQUEST {
        match get_int(bson, "ID") {
            Ok(id) => Ok(Command::SendFriendRequest { id }),
            Err(e) => Err(e),
        }
    } else {
        Err(Fault::UnknownPacketId)
    }
}

} // verus!
