use trivia_server::protocol::Fault;
use trivia_server::state::{GameQuestion, State};

fn lobby_bank() -> Vec<GameQuestion> {
    let mut bank = Vec::new();
    for i in 0..4 {
        bank.push(GameQuestion {
            question: format!("question {}", i),
            answer_option_1: String::from("a"),
            answer_option_2: String::from("b"),
            answer_option_3: String::from("c"),
            answer_option_4: String::from("d"),
            answer_index: i,
        });
    }
    bank
}

fn lobby_with(peers: &[u64]) -> State {
    let mut state = State::new(lobby_bank());
    for peer in peers {
        state.add_player(*peer);
    }
    state
}

fn lobby_doc(bytes: &[u8]) -> bson::Document {
    bson::from_slice::<bson::Document>(bytes).unwrap()
}

#[test]
fn first_arrival_waits() {
    let mut state = lobby_with(&[1, 2]);
    assert_eq!(state.join_queue(1, false, 10), Ok(()));
    assert_eq!(state.last_queue, [Some(1), None]);
    assert!(state.games.is_empty());
    assert!(state.packets.is_empty());
    assert_eq!(state.players[0].game_id, None);
}

#[test]
fn competitive_uses_the_second_slot() {
    let mut state = lobby_with(&[1, 2]);
    assert_eq!(state.join_queue(1, true, 10), Ok(()));
    assert_eq!(state.last_queue, [None, Some(1)]);
}

#[test]
fn modes_do_not_mix() {
    let mut state = lobby_with(&[1, 2]);
    assert_eq!(state.join_queue(1, false, 10), Ok(()));
    assert_eq!(state.join_queue(2, true, 10), Ok(()));
    assert_eq!(state.last_queue, [Some(1), Some(2)]);
    assert!(state.games.is_empty());
}

#[test]
fn second_arrival_is_paired_with_the_first() {
    let mut state = lobby_with(&[1, 2]);
    state.players[0].name = String::from("alice");
    state.players[0].pfp_blob = vec![1, 2, 3];
    state.players[0].pfp_ext = String::from("png");
    state.players[1].name = String::from("bob");
    state.players[1].pfp_blob = vec![9];
    state.players[1].pfp_ext = String::from("jpg");
    assert_eq!(state.join_queue(1, false, 10), Ok(()));
    assert_eq!(state.join_queue(2, false, 20), Ok(()));
    assert_eq!(state.last_queue, [None, None]);
    assert_eq!(state.games.len(), 1);
    let game = &state.games[0];
    assert_eq!(game.id, 0);
    assert_eq!(game.p1, 2);
    assert_eq!(game.p2, 1);
    assert!(!game.competitive);
    assert_eq!(game.stage, 0);
    assert!(!game.started);
    assert_eq!(game.start_timer, 20);
    assert_eq!(game.stage_timer, 20);
    assert_eq!(state.players[0].game_id, Some(0));
    assert_eq!(state.players[1].game_id, Some(0));
    assert_eq!(state.next_game_id, 1);

    assert_eq!(state.packets.len(), 2);
    assert_eq!(state.packets[0].0, 1);
    let to_waiting = lobby_doc(&state.packets[0].1);
    assert_eq!(to_waiting.get_i32("PacketID"), Ok(1));
    assert_eq!(to_waiting.get_str("Name"), Ok("bob"));
    assert_eq!(to_waiting.get_binary_generic("ProfilePicture"), Ok(&vec![9u8]));
    assert_eq!(to_waiting.get_str("ProfilePictureExtension"), Ok("jpg"));
    assert_eq!(state.packets[1].0, 2);
    let to_joiner = lobby_doc(&state.packets[1].1);
    assert_eq!(to_joiner.get_i32("PacketID"), Ok(1));
    assert_eq!(to_joiner.get_str("Name"), Ok("alice"));
    assert_eq!(to_joiner.get_binary_generic("ProfilePicture"), Ok(&vec![1u8, 2, 3]));
    assert_eq!(to_joiner.get_str("ProfilePictureExtension"), Ok("png"));
}

#[test]
fn competitive_pairing_makes_competitive_match() {
    let mut state = lobby_with(&[1, 2]);
    assert_eq!(state.join_queue(1, true, 10), Ok(()));
    assert_eq!(state.join_queue(2, true, 20), Ok(()));
    assert_eq!(state.games.len(), 1);
    assert!(state.games[0].competitive);
}

#[test]
fn duplicate_join_is_rejected_and_clears_slot() {
    let mut state = lobby_with(&[1, 2]);
    assert_eq!(state.join_queue(1, false, 10), Ok(()));
    assert_eq!(state.join_queue(1, false, 11), Err(Fault::DuplicateJoin));
    assert_eq!(state.last_queue, [None, None]);
    assert!(state.games.is_empty());
    assert!(state.packets.is_empty());
}

#[test]
fn vanished_partner_is_rejected_and_clears_slot() {
    let mut state = lobby_with(&[1, 2]);
    state.last_queue[1] = Some(77);
    assert_eq!(state.join_queue(2, true, 10), Err(Fault::PartnerGone));
    assert_eq!(state.last_queue, [None, None]);
    assert!(state.games.is_empty());
    assert!(state.packets.is_empty());
    assert_eq!(state.players[1].game_id, None);
}

#[test]
fn pairing_is_first_come_first_served() {
    let mut state = lobby_with(&[1, 2, 3]);
    assert_eq!(state.join_queue(1, false, 10), Ok(()));
    assert_eq!(state.join_queue(2, false, 20), Ok(()));
    assert_eq!(state.join_queue(3, false, 30), Ok(()));
    assert_eq!(state.games.len(), 1);
    assert_eq!(state.games[0].p1, 2);
    assert_eq!(state.games[0].p2, 1);
    assert_eq!(state.last_queue, [Some(3), None]);
    assert_eq!(state.players[2].game_id, None);
    assert_eq!(state.packets.len(), 2);
}

#[test]
fn fourth_arrival_pairs_with_the_third() {
    let mut state = lobby_with(&[1, 2, 3, 4]);
    for (k, peer) in [1u64, 2, 3, 4].iter().enumerate() {
        assert_eq!(state.join_queue(*peer, false, k as i64), Ok(()));
    }
    assert_eq!(state.games.len(), 2);
    assert_eq!((state.games[0].p1, state.games[0].p2), (2, 1));
    assert_eq!((state.games[1].p1, state.games[1].p2), (4, 3));
    assert_eq!(state.games[1].id, 1);
    assert_eq!(state.players[2].game_id, Some(1));
    assert_eq!(state.players[3].game_id, Some(1));
    assert_eq!(state.last_queue, [None, None]);
}

#[test]
fn waiting_player_holds_no_match_along_a_run() {
    let mut state = lobby_with(&[1, 2, 3, 4, 5]);
    let joins: [(u64, bool); 5] = [(1, false), (2, true), (3, false), (4, true), (5, false)];
    for (k, (peer, competitive)) in joins.iter().enumerate() {
        assert_eq!(state.join_queue(*peer, *competitive, k as i64), Ok(()));
        for slot in state.last_queue.iter() {
            if let Some(waiting) = slot {
                let p = state.get_player(*waiting).unwrap();
                assert_eq!(p.game_id, None);
            }
        }
    }
    assert_eq!(state.last_queue, [Some(5), None]);
    assert_eq!(state.games.len(), 2);
}

#[test]
fn matched_player_cannot_wait() {
    let mut state = lobby_with(&[1, 2, 3]);
    assert_eq!(state.join_queue(1, false, 10), Ok(()));
    assert_eq!(state.join_queue(2, false, 20), Ok(()));
    state.packets.clear();
    assert_eq!(state.join_queue(1, false, 30), Err(Fault::AlreadyInMatch));
    assert_eq!(state.join_queue(2, true, 30), Err(Fault::AlreadyInMatch));
    assert_eq!(state.last_queue, [None, None]);
    assert_eq!(state.games.len(), 1);
    assert_eq!(state.players[0].game_id, Some(0));
    assert_eq!(state.players[1].game_id, Some(0));
    assert!(state.packets.is_empty());
}

#[test]
fn matched_player_does_not_disturb_a_waiting_one() {
    let mut state = lobby_with(&[1, 2, 3]);
    assert_eq!(state.join_queue(1, false, 10), Ok(()));
    assert_eq!(state.join_queue(2, false, 20), Ok(()));
    assert_eq!(state.join_queue(3, false, 25), Ok(()));
    assert_eq!(state.join_queue(1, false, 30), Err(Fault::AlreadyInMatch));
    assert_eq!(state.last_queue, [Some(3), None]);
    assert_eq!(state.games.len(), 1);
}

#[test]
fn pairing_takes_both_players_out_of_the_other_slot() {
    let mut state = lobby_with(&[1, 2, 3]);
    assert_eq!(state.join_queue(1, true, 10), Ok(()));
    assert_eq!(state.join_queue(1, false, 11), Ok(()));
    assert_eq!(state.last_queue, [Some(1), Some(1)]);
    assert_eq!(state.join_queue(2, false, 20), Ok(()));
    assert_eq!(state.last_queue, [None, None]);
    assert_eq!(state.games.len(), 1);
    assert_eq!((state.games[0].p1, state.games[0].p2), (2, 1));
    assert!(!state.games[0].competitive);
}

#[test]
fn pairing_takes_the_joiner_out_of_the_other_slot() {
    let mut state = lobby_with(&[1, 2, 3]);
    assert_eq!(state.join_queue(1, true, 10), Ok(()));
    assert_eq!(state.join_queue(2, false, 11), Ok(()));
    assert_eq!(state.last_queue, [Some(2), Some(1)]);
    assert_eq!(state.join_queue(2, true, 20), Ok(()));
    assert_eq!(state.last_queue, [None, None]);
    assert_eq!(state.games.len(), 1);
    assert_eq!((state.games[0].p1, state.games[0].p2), (2, 1));
    assert!(state.games[0].competitive);
}

#[test]
fn pairing_leaves_a_third_player_in_the_other_slot() {
    let mut state = lobby_with(&[1, 2, 3]);
    assert_eq!(state.join_queue(3, true, 5), Ok(()));
    assert_eq!(state.join_queue(1, false, 10), Ok(()));
    assert_eq!(state.join_queue(2, false, 20), Ok(()));
    assert_eq!(state.last_queue, [None, Some(3)]);
}

#[test]
fn reference_to_a_match_that_is_gone_is_given_up_on_joining() {
    let mut state = lobby_with(&[1, 2, 3]);
    assert_eq!(state.join_queue(1, false, 10), Ok(()));
    assert_eq!(state.join_queue(2, false, 20), Ok(()));
    state.remove_player(2);
    assert_eq!(state.players[0].game_id, Some(0));
    assert_eq!(state.join_queue(1, true, 30), Ok(()));
    assert_eq!(state.players[0].game_id, None);
    assert_eq!(state.last_queue, [None, Some(1)]);
}

#[test]
fn no_pairing_when_the_match_ids_are_used_up() {
    let mut state = lobby_with(&[1, 2]);
    state.next_game_id = u64::MAX;
    assert_eq!(state.join_queue(1, false, 10), Ok(()));
    assert_eq!(state.join_queue(2, false, 20), Err(Fault::OutOfMatchIds));
    assert_eq!(state.last_queue, [None, None]);
    assert!(state.games.is_empty());
    assert!(state.packets.is_empty());
    assert_eq!(state.players[1].game_id, None);
}

#[test]
fn no_waiting_player_is_in_a_match_whatever_is_asked() {
    let mut state = lobby_with(&[1, 2, 3, 4]);
    let asks: [(u64, bool); 12] = [
        (1, false),
        (1, true),
        (2, true),
        (1, false),
        (3, false),
        (2, false),
        (4, true),
        (3, true),
        (4, false),
        (3, false),
        (4, false),
        (4, true),
    ];
    for (k, (peer, competitive)) in asks.iter().enumerate() {
        let _ = state.join_queue(*peer, *competitive, k as i64);
        for slot in state.last_queue.iter() {
            if let Some(waiting) = slot {
                assert_eq!(state.get_player(*waiting).unwrap().game_id, None);
                assert!(state.games.iter().all(|g| g.p1 != *waiting && g.p2 != *waiting));
            }
        }
        for p in state.players.iter() {
            let plays = state.games.iter().filter(|g| g.p1 == p.peer_id || g.p2 == p.peer_id).count();
            assert!(plays <= 1);
        }
    }
}
