use trivia_server::database::{FriendInfo, FriendRequestInfo, LeaderboardInfo};
use trivia_server::player::Player;
use trivia_server::state::{GameQuestion, PacketSent};

fn doc_of(packet: &PacketSent) -> bson::Document {
    bson::from_slice::<bson::Document>(&packet.1).unwrap()
}

fn keys_of(d: &bson::Document) -> Vec<String> {
    d.keys().map(|k| k.to_string()).collect()
}

fn record_at(d: &bson::Document, key: &str, i: usize) -> bson::Document {
    d.get_array(key).unwrap()[i].as_document().unwrap().clone()
}

#[test]
fn send_packet_queues_encoded_document_for_the_player() {
    let p = Player::new(42);
    let mut packets: Vec<PacketSent> = Vec::new();
    let mut d = bson::Document::new();
    d.insert("PacketID", 99);
    d.insert("Note", "hello");
    assert!(p.send_packet(&mut packets, d.clone()));
    assert_eq!(packets.len(), 1);
    assert_eq!(packets[0].0, 42);
    assert_eq!(packets[0].1, bson::to_vec(&d).unwrap());
    assert_eq!(doc_of(&packets[0]), d);
}

#[test]
fn send_packet_appends_behind_what_is_queued() {
    let p = Player::new(1);
    let q = Player::new(2);
    let mut packets: Vec<PacketSent> = Vec::new();
    p.send_answer(&mut packets, 1);
    q.send_answer(&mut packets, 2);
    p.send_answer(&mut packets, 3);
    let order: Vec<(u64, i32)> =
        packets.iter().map(|x| (x.0, doc_of(x).get_i32("AnswerIndex").unwrap())).collect();
    assert_eq!(order, vec![(1, 1), (2, 2), (1, 3)]);
}

#[test]
fn send_packet_drops_what_cannot_be_encoded() {
    let p = Player::new(1);
    let mut packets: Vec<PacketSent> = Vec::new();
    let mut d = bson::Document::new();
    d.insert("bad\0key", 1);
    assert!(bson::to_vec(&d).is_err());
    assert!(!p.send_packet(&mut packets, d));
    assert!(packets.is_empty());
}

#[test]
fn every_send_function_tells_that_it_queued() {
    let p = Player::new(1);
    let mut packets: Vec<PacketSent> = Vec::new();
    assert!(p.send_auth_response(&mut packets, "a", &[1], "png", false));
    assert!(p.send_match_notify(&mut packets, "a", &[1], "png"));
    assert!(p.send_question_update(&mut packets, 1, 2, &GameQuestion::default()));
    assert!(p.send_answer(&mut packets, 1));
    assert!(p.send_update_name(&mut packets, "a", false));
    assert!(p.send_game_ended(&mut packets, "a"));
    assert!(p.send_friends(&mut packets, Vec::new()));
    assert!(p.send_friend_requests(&mut packets, Vec::new()));
    assert!(p.send_search_name(&mut packets, true, "a", &[1], "png"));
    assert!(p.send_leaderboard(&mut packets, Vec::new()));
    assert!(p.send_change_profile_picture(&mut packets, &[1], "png"));
    assert_eq!(packets.len(), 11);
}

#[test]
fn auth_response_document() {
    let p = Player::new(3);
    let mut packets = Vec::new();
    p.send_auth_response(&mut packets, "alice", &[1, 2], "png", false);
    assert_eq!(packets[0].0, 3);
    let d = doc_of(&packets[0]);
    assert_eq!(keys_of(&d), vec!["PacketID", "Name", "Error", "ProfilePicture", "ProfilePictureExtension"]);
    assert_eq!(d.get_i32("PacketID"), Ok(0));
    assert_eq!(d.get_str("Name"), Ok("alice"));
    assert_eq!(d.get_bool("Error"), Ok(false));
    assert_eq!(d.get_binary_generic("ProfilePicture"), Ok(&vec![1u8, 2]));
    assert_eq!(d.get_str("ProfilePictureExtension"), Ok("png"));
}

#[test]
fn auth_response_document_for_an_error() {
    let p = Player::new(3);
    let mut packets = Vec::new();
    p.send_auth_response(&mut packets, "", &[], "", true);
    let d = doc_of(&packets[0]);
    assert_eq!(d.get_str("Name"), Ok(""));
    assert_eq!(d.get_bool("Error"), Ok(true));
    assert_eq!(d.get_binary_generic("ProfilePicture"), Ok(&Vec::new()));
    assert_eq!(d.get_str("ProfilePictureExtension"), Ok(""));
}

#[test]
fn match_notify_document() {
    let p = Player::new(3);
    let mut packets = Vec::new();
    p.send_match_notify(&mut packets, "bob", &[7], "gif");
    let d = doc_of(&packets[0]);
    assert_eq!(keys_of(&d), vec!["PacketID", "Name", "ProfilePicture", "ProfilePictureExtension"]);
    assert_eq!(d.get_i32("PacketID"), Ok(1));
    assert_eq!(d.get_str("Name"), Ok("bob"));
    assert_eq!(d.get_binary_generic("ProfilePicture"), Ok(&vec![7u8]));
    assert_eq!(d.get_str("ProfilePictureExtension"), Ok("gif"));
}

#[test]
fn question_update_document() {
    let p = Player::new(3);
    let mut packets = Vec::new();
    let q = GameQuestion {
        question: String::from("2 + 2?"),
        answer_option_1: String::from("3"),
        answer_option_2: String::from("4"),
        answer_option_3: String::from("5"),
        answer_option_4: String::from("22"),
        answer_index: 1,
    };
    p.send_question_update(&mut packets, 13, -2, &q);
    let d = doc_of(&packets[0]);
    assert_eq!(
        keys_of(&d),
        vec![
            "PacketID",
            "Points",
            "Question",
            "EnemyPoints",
            "AnswerOption1",
            "AnswerOption2",
            "AnswerOption3",
            "AnswerOption4"
        ]
    );
    assert_eq!(d.get_i32("PacketID"), Ok(2));
    assert_eq!(d.get_i32("Points"), Ok(13));
    assert_eq!(d.get_i32("EnemyPoints"), Ok(-2));
    assert_eq!(d.get_str("Question"), Ok("2 + 2?"));
    assert_eq!(d.get_str("AnswerOption1"), Ok("3"));
    assert_eq!(d.get_str("AnswerOption2"), Ok("4"));
    assert_eq!(d.get_str("AnswerOption3"), Ok("5"));
    assert_eq!(d.get_str("AnswerOption4"), Ok("22"));
    assert!(d.get("AnswerIndex").is_none());
}

#[test]
fn answer_document() {
    let p = Player::new(3);
    let mut packets = Vec::new();
    p.send_answer(&mut packets, 2);
    let d = doc_of(&packets[0]);
    assert_eq!(keys_of(&d), vec!["PacketID", "AnswerIndex"]);
    assert_eq!(d.get_i32("PacketID"), Ok(3));
    assert_eq!(d.get_i32("AnswerIndex"), Ok(2));
}

#[test]
fn update_name_document() {
    let p = Player::new(3);
    let mut packets = Vec::new();
    p.send_update_name(&mut packets, "carol", true);
    let d = doc_of(&packets[0]);
    assert_eq!(keys_of(&d), vec!["PacketID", "Name", "Error"]);
    assert_eq!(d.get_i32("PacketID"), Ok(7));
    assert_eq!(d.get_str("Name"), Ok("carol"));
    assert_eq!(d.get_bool("Error"), Ok(true));
}

#[test]
fn game_ended_document() {
    let p = Player::new(3);
    let mut packets = Vec::new();
    p.send_game_ended(&mut packets, "-");
    let d = doc_of(&packets[0]);
    assert_eq!(keys_of(&d), vec!["PacketID", "Winner"]);
    assert_eq!(d.get_i32("PacketID"), Ok(4));
    assert_eq!(d.get_str("Winner"), Ok("-"));
}

#[test]
fn friends_document() {
    let p = Player::new(3);
    let mut packets = Vec::new();
    let friends = vec![
        FriendInfo {
            id: 5,
            name: String::from("dan"),
            online: true,
            pfp_ext: String::from("png"),
            pfp: vec![1],
        },
        FriendInfo {
            id: 6,
            name: String::from("eve"),
            online: false,
            pfp_ext: String::from("jpg"),
            pfp: vec![2, 3],
        },
    ];
    p.send_friends(&mut packets, friends);
    let d = doc_of(&packets[0]);
    assert_eq!(keys_of(&d), vec!["PacketID", "Friends"]);
    assert_eq!(d.get_i32("PacketID"), Ok(8));
    assert_eq!(d.get_array("Friends").unwrap().len(), 2);
    let first = record_at(&d, "Friends", 0);
    assert_eq!(keys_of(&first), vec!["ID", "Name", "ProfilePicture", "ProfilePictureExtension"]);
    assert_eq!(first.get_i32("ID"), Ok(5));
    assert_eq!(first.get_str("Name"), Ok("dan"));
    assert_eq!(first.get_binary_generic("ProfilePicture"), Ok(&vec![1u8]));
    assert_eq!(first.get_str("ProfilePictureExtension"), Ok("png"));
    let second = record_at(&d, "Friends", 1);
    assert_eq!(second.get_i32("ID"), Ok(6));
    assert_eq!(second.get_str("Name"), Ok("eve"));
    assert_eq!(second.get_binary_generic("ProfilePicture"), Ok(&vec![2u8, 3]));
    assert_eq!(second.get_str("ProfilePictureExtension"), Ok("jpg"));
}

#[test]
fn empty_friends_document() {
    let p = Player::new(3);
    let mut packets = Vec::new();
    p.send_friends(&mut packets, Vec::new());
    let d = doc_of(&packets[0]);
    assert_eq!(d.get_i32("PacketID"), Ok(8));
    assert!(d.get_array("Friends").unwrap().is_empty());
}

#[test]
fn friend_requests_document() {
    let p = Player::new(3);
    let mut packets = Vec::new();
    let requests = vec![FriendRequestInfo {
        id: 9,
        name: String::from("fay"),
        pfp_ext: String::from("bmp"),
        pfp: vec![4, 4],
    }];
    p.send_friend_requests(&mut packets, requests);
    let d = doc_of(&packets[0]);
    assert_eq!(keys_of(&d), vec!["PacketID", "FriendRequests"]);
    assert_eq!(d.get_i32("PacketID"), Ok(9));
    assert_eq!(d.get_array("FriendRequests").unwrap().len(), 1);
    let first = record_at(&d, "FriendRequests", 0);
    assert_eq!(keys_of(&first), vec!["ID", "Name", "ProfilePicture", "ProfilePictureExtension"]);
    assert_eq!(first.get_i32("ID"), Ok(9));
    assert_eq!(first.get_str("Name"), Ok("fay"));
    assert_eq!(first.get_binary_generic("ProfilePicture"), Ok(&vec![4u8, 4]));
    assert_eq!(first.get_str("ProfilePictureExtension"), Ok("bmp"));
}

#[test]
fn search_name_document() {
    let p = Player::new(3);
    let mut packets = Vec::new();
    p.send_search_name(&mut packets, true, "gus", &[8, 9], "png");
    let d = doc_of(&packets[0]);
    assert_eq!(
        keys_of(&d),
        vec!["PacketID", "Name", "Found", "ProfilePicture", "ProfilePictureExtension"]
    );
    assert_eq!(d.get_i32("PacketID"), Ok(12));
    assert_eq!(d.get_str("Name"), Ok("gus"));
    assert_eq!(d.get_bool("Found"), Ok(true));
    assert_eq!(d.get_binary_generic("ProfilePicture"), Ok(&vec![8u8, 9]));
    assert_eq!(d.get_str("ProfilePictureExtension"), Ok("png"));
}

#[test]
fn leaderboard_document() {
    let p = Player::new(3);
    let mut packets = Vec::new();
    let rows = vec![
        LeaderboardInfo {
            win: 10,
            lose: 2,
            rating: 1500,
            name: String::from("top"),
            pfp_ext: String::from("png"),
            pfp: vec![1],
        },
        LeaderboardInfo {
            win: 3,
            lose: 7,
            rating: 900,
            name: String::from("low"),
            pfp_ext: String::from("jpg"),
            pfp: vec![],
        },
    ];
    p.send_leaderboard(&mut packets, rows);
    let d = doc_of(&packets[0]);
    assert_eq!(keys_of(&d), vec!["PacketID", "Leaderboard"]);
    assert_eq!(d.get_i32("PacketID"), Ok(5));
    assert_eq!(d.get_array("Leaderboard").unwrap().len(), 2);
    let first = record_at(&d, "Leaderboard", 0);
    assert_eq!(
        keys_of(&first),
        vec!["Win", "Lose", "Name", "Rating", "ProfilePicture", "ProfilePictureExtension"]
    );
    assert_eq!(first.get_i32("Win"), Ok(10));
    assert_eq!(first.get_i32("Lose"), Ok(2));
    assert_eq!(first.get_str("Name"), Ok("top"));
    assert_eq!(first.get_i32("Rating"), Ok(1500));
    assert_eq!(first.get_binary_generic("ProfilePicture"), Ok(&vec![1u8]));
    assert_eq!(first.get_str("ProfilePictureExtension"), Ok("png"));
    let second = record_at(&d, "Leaderboard", 1);
    assert_eq!(second.get_i32("Win"), Ok(3));
    assert_eq!(second.get_i32("Lose"), Ok(7));
    assert_eq!(second.get_str("Name"), Ok("low"));
    assert_eq!(second.get_i32("Rating"), Ok(900));
}

#[test]
fn change_profile_picture_document() {
    let p = Player::new(3);
    let mut packets = Vec::new();
    p.send_change_profile_picture(&mut packets, &[5, 6, 7], "webp");
    let d = doc_of(&packets[0]);
    assert_eq!(keys_of(&d), vec!["PacketID", "ProfilePicture", "ProfilePictureExtension"]);
    assert_eq!(d.get_i32("PacketID"), Ok(6));
    assert_eq!(d.get_binary_generic("ProfilePicture"), Ok(&vec![5u8, 6, 7]));
    assert_eq!(d.get_str("ProfilePictureExtension"), Ok("webp"));
}
