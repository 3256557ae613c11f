use trivia_server::database::RankUpdate;
use trivia_server::game::{
    award, bump, count_unused, draw_question, elapsed, is_used, nth_unused, retro_date, Game,
    NANOS_PER_SEC,
};
use trivia_server::protocol::Fault;
use trivia_server::round::poll_game;
use std::collections::HashSet;
use trivia_server::state::{GameQuestion, State};

const SEC: i64 = NANOS_PER_SEC;

fn used_set(indices: &[usize]) -> HashSet<usize> {
    indices.iter().copied().collect()
}

fn round_bank(n: usize) -> Vec<GameQuestion> {
    let mut bank = Vec::new();
    for i in 0..n {
        bank.push(GameQuestion {
            question: format!("question {}", i),
            answer_option_1: format!("a{}", i),
            answer_option_2: format!("b{}", i),
            answer_option_3: format!("c{}", i),
            answer_option_4: format!("d{}", i),
            answer_index: (i % 4) as i32 + 1,
        });
    }
    bank
}

/// Players 1 and 2, named, paired at time 0 in a match with player 2 first.
fn round_paired(competitive: bool) -> State {
    let mut state = State::new(round_bank(5));
    state.add_player(1);
    state.add_player(2);
    state.players[0].name = String::from("alice");
    state.players[0].id = 101;
    state.players[1].name = String::from("bob");
    state.players[1].id = 102;
    assert!(state.join_queue(1, competitive, 0).is_ok());
    assert!(state.join_queue(2, competitive, 0).is_ok());
    state.packets.clear();
    state
}

fn round_doc(bytes: &[u8]) -> bson::Document {
    bson::from_slice::<bson::Document>(bytes).unwrap()
}

fn round_right_answer(state: &State) -> i32 {
    state.questions[state.games[0].question.unwrap()].answer_index
}

#[test]
fn elapsed_floors_to_whole_seconds() {
    assert_eq!(elapsed(0, 0), 0);
    assert_eq!(elapsed(0, SEC - 1), 0);
    assert_eq!(elapsed(0, SEC), 1);
    assert_eq!(elapsed(5, 2 * SEC + 4), 1);
    assert_eq!(elapsed(5, 2 * SEC + 5), 2);
    assert_eq!(elapsed(-3 * SEC, 4 * SEC), 7);
}

#[test]
fn elapsed_is_zero_when_now_is_not_later() {
    assert_eq!(elapsed(10 * SEC, 3 * SEC), 0);
    assert_eq!(elapsed(7, 7), 0);
}

#[test]
fn elapsed_spans_the_whole_clock() {
    assert_eq!(elapsed(i64::MIN, i64::MAX), 18446744073);
}

#[test]
fn award_counts_down_from_fifteen() {
    assert_eq!(award(0, 0), 15);
    assert_eq!(award(0, 2), 13);
    assert_eq!(award(0, 5), 10);
    assert_eq!(award(13, 14), 14);
    assert_eq!(award(7, 15), 7);
}

#[test]
fn award_goes_negative_for_late_answers() {
    assert_eq!(award(0, 16), -1);
    assert_eq!(award(3, 40), -22);
}

#[test]
fn award_stops_at_the_ends_of_i32() {
    assert_eq!(award(i32::MAX, 0), i32::MAX);
    assert_eq!(award(i32::MAX - 5, 0), i32::MAX);
    assert_eq!(award(i32::MIN, 16), i32::MIN);
    assert_eq!(award(0, u64::MAX), i32::MIN);
}

#[test]
fn bump_adds_and_saturates() {
    assert_eq!(bump(0, 1), 1);
    assert_eq!(bump(1490, 10), 1500);
    assert_eq!(bump(i32::MAX, 1), i32::MAX);
    assert_eq!(bump(i32::MAX - 3, 10), i32::MAX);
    assert_eq!(bump(-5, 0), -5);
    assert_eq!(bump(5, -3), 2);
    assert_eq!(bump(i32::MIN, -1), i32::MIN);
}

#[test]
fn retro_date_goes_back_twelve_seconds() {
    assert_eq!(retro_date(20 * SEC), 8 * SEC);
    assert_eq!(retro_date(0), -12 * SEC);
    assert_eq!(retro_date(5 * SEC + 1), -7 * SEC + 1);
}

#[test]
fn retro_date_stops_at_the_earliest_time() {
    assert_eq!(retro_date(i64::MIN), i64::MIN);
    assert_eq!(retro_date(i64::MIN + 12 * SEC - 1), i64::MIN);
    assert_eq!(retro_date(i64::MIN + 12 * SEC), i64::MIN);
    assert_eq!(retro_date(i64::MIN + 12 * SEC + 1), i64::MIN + 1);
}

#[test]
fn is_used_finds_members() {
    let used = used_set(&[4, 1]);
    assert!(is_used(&used, 4));
    assert!(is_used(&used, 1));
    assert!(!is_used(&used, 0));
    assert!(!is_used(&used_set(&[]), 0));
}

#[test]
fn count_unused_counts_what_is_left() {
    assert_eq!(count_unused(&used_set(&[]), 5), 5);
    assert_eq!(count_unused(&used_set(&[0, 3]), 5), 3);
    assert_eq!(count_unused(&used_set(&[0, 1, 2]), 3), 0);
    assert_eq!(count_unused(&used_set(&[9]), 3), 3);
    assert_eq!(count_unused(&used_set(&[2, 2]), 3), 2);
}

#[test]
fn nth_unused_skips_used_indices() {
    let used = used_set(&[1, 3]);
    assert_eq!(nth_unused(&used, 6, 0), 0);
    assert_eq!(nth_unused(&used, 6, 1), 2);
    assert_eq!(nth_unused(&used, 6, 2), 4);
    assert_eq!(nth_unused(&used, 6, 3), 5);
    assert_eq!(nth_unused(&used_set(&[]), 3, 2), 2);
    assert_eq!(nth_unused(&used_set(&[0, 1]), 3, 0), 2);
}

#[test]
fn draw_question_gives_an_unused_index() {
    let used = used_set(&[0, 2, 4]);
    for _ in 0..200 {
        let q = draw_question(&used, 6);
        assert!(q < 6);
        assert!(!used.contains(&q));
    }
}

#[test]
fn draw_question_takes_the_last_one_left() {
    for _ in 0..20 {
        assert_eq!(draw_question(&used_set(&[0, 2]), 3), 1);
    }
}

#[test]
fn draw_question_reaches_every_unused_index() {
    let used = used_set(&[1]);
    let mut seen = [false; 4];
    for _ in 0..400 {
        seen[draw_question(&used, 4)] = true;
    }
    assert_eq!(seen, [true, false, true, true]);
}

#[test]
fn due_after_three_seconds_before_start() {
    let g = Game::new(0, 1, 2, false, 10 * SEC);
    assert!(!g.is_due(10 * SEC));
    assert!(!g.is_due(13 * SEC - 1));
    assert!(g.is_due(13 * SEC));
    assert!(g.is_due(40 * SEC));
    assert!(!g.is_due(0));
}

#[test]
fn due_after_fifteen_seconds_in_a_round() {
    let mut g = Game::new(0, 1, 2, false, 0);
    g.started = true;
    g.stage = 1;
    g.stage_timer = 100 * SEC;
    assert!(!g.is_due(103 * SEC));
    assert!(!g.is_due(115 * SEC - 1));
    assert!(g.is_due(115 * SEC));
}

#[test]
fn poll_does_nothing_before_the_start_delay() {
    let mut state = round_paired(false);
    poll_game(&mut state, 3 * SEC - 1);
    assert_eq!(state.games[0].stage, 0);
    assert!(!state.games[0].started);
    assert!(state.packets.is_empty());
}

#[test]
fn first_round_starts_after_three_seconds() {
    let mut state = round_paired(false);
    state.players[0].points = 4;
    state.players[1].points = 9;
    poll_game(&mut state, 3 * SEC);
    let game = &state.games[0];
    assert_eq!(game.stage, 1);
    assert!(game.started);
    assert_eq!(game.stage_timer, 3 * SEC);
    assert_eq!(game.start_timer, 0);
    let q = game.question.unwrap();
    assert!(q < 5);
    assert_eq!(game.previous_questions, used_set(&[q]));

    assert_eq!(state.packets.len(), 2);
    assert_eq!(state.packets[0].0, 2);
    assert_eq!(state.packets[1].0, 1);
    let first = round_doc(&state.packets[0].1);
    let second = round_doc(&state.packets[1].1);
    assert_eq!(first.get_i32("PacketID"), Ok(2));
    assert_eq!(first.get_i32("Points"), Ok(9));
    assert_eq!(first.get_i32("EnemyPoints"), Ok(4));
    assert_eq!(second.get_i32("Points"), Ok(4));
    assert_eq!(second.get_i32("EnemyPoints"), Ok(9));
    let text = format!("question {}", q);
    assert_eq!(first.get_str("Question"), Ok(text.as_str()));
    assert_eq!(second.get_str("Question"), Ok(text.as_str()));
    assert_eq!(first.get_str("AnswerOption1"), Ok(format!("a{}", q).as_str()));
    assert_eq!(first.get_str("AnswerOption2"), Ok(format!("b{}", q).as_str()));
    assert_eq!(first.get_str("AnswerOption3"), Ok(format!("c{}", q).as_str()));
    assert_eq!(first.get_str("AnswerOption4"), Ok(format!("d{}", q).as_str()));
}

#[test]
fn first_round_keeps_answers_given_while_waiting() {
    let mut state = round_paired(false);
    state.players[0].answered = true;
    poll_game(&mut state, 3 * SEC);
    assert!(state.players[0].answered);
}

#[test]
fn second_round_resets_answers_and_draws_new_question() {
    let mut state = round_paired(false);
    poll_game(&mut state, 3 * SEC);
    let q1 = state.games[0].question.unwrap();
    state.players[0].answered = true;
    state.players[1].answered = true;
    poll_game(&mut state, 18 * SEC - 1);
    assert_eq!(state.games[0].stage, 1);
    poll_game(&mut state, 18 * SEC);
    assert_eq!(state.games[0].stage, 2);
    assert_eq!(state.games[0].stage_timer, 18 * SEC);
    let q2 = state.games[0].question.unwrap();
    assert_ne!(q1, q2);
    assert_eq!(state.games[0].previous_questions, used_set(&[q1, q2]));
    assert!(!state.players[0].answered);
    assert!(!state.players[1].answered);
}

#[test]
fn third_round_is_played_before_the_match_is_settled() {
    let mut state = round_paired(false);
    poll_game(&mut state, 3 * SEC);
    poll_game(&mut state, 18 * SEC);
    state.players[0].answered = true;
    state.players[1].answered = true;
    state.packets.clear();
    poll_game(&mut state, 33 * SEC - 1);
    assert_eq!(state.games[0].stage, 2);
    poll_game(&mut state, 33 * SEC);
    assert_eq!(state.games.len(), 1);
    assert_eq!(state.games[0].stage, 3);
    assert_eq!(state.games[0].stage_timer, 33 * SEC);
    assert_eq!(state.games[0].previous_questions.len(), 3);
    assert!(!state.players[0].answered);
    assert!(!state.players[1].answered);
    assert!(state.saves.is_empty());
    assert_eq!(state.packets.len(), 2);
    assert_eq!(round_doc(&state.packets[0].1).get_i32("PacketID"), Ok(2));
    assert_eq!(round_doc(&state.packets[1].1).get_i32("PacketID"), Ok(2));
    let right = round_right_answer(&state);
    assert_eq!(state.submit_answer(1, right, 35 * SEC), Ok(()));
    assert_eq!(state.players[0].points, 13);
}

#[test]
fn match_settles_at_the_fourth_move() {
    let mut state = round_paired(false);
    poll_game(&mut state, 3 * SEC);
    poll_game(&mut state, 18 * SEC);
    poll_game(&mut state, 33 * SEC);
    assert_eq!(state.games.len(), 1);
    poll_game(&mut state, 48 * SEC - 1);
    assert_eq!(state.games.len(), 1);
    assert_eq!(state.games[0].stage, 3);
    poll_game(&mut state, 48 * SEC);
    assert!(state.games.is_empty());
    assert_eq!(state.saves.len(), 2);
}

#[test]
fn advance_game_moves_one_stage_on_the_given_question() {
    let mut state = round_paired(false);
    state.advance_game(0, 3, 7 * SEC);
    assert_eq!(state.games[0].stage, 1);
    assert_eq!(state.games[0].question, Some(3));
    assert_eq!(state.games[0].stage_timer, 7 * SEC);
    state.advance_game(0, 1, 9 * SEC);
    assert_eq!(state.games[0].stage, 2);
    assert_eq!(state.games[0].question, Some(1));
    assert_eq!(state.games[0].previous_questions, used_set(&[3, 1]));
    state.advance_game(0, 4, 10 * SEC);
    assert_eq!(state.games[0].stage, 3);
    assert_eq!(state.games[0].question, Some(4));
    assert_eq!(state.games[0].previous_questions, used_set(&[3, 1, 4]));
    state.advance_game(0, 0, 11 * SEC);
    assert!(state.games.is_empty());
}

#[test]
fn settlement_names_the_winner_and_updates_records() {
    let mut state = round_paired(false);
    state.advance_game(0, 0, 3 * SEC);
    state.advance_game(0, 1, 18 * SEC);
    state.advance_game(0, 3, 33 * SEC);
    state.packets.clear();
    state.players[0].points = 20;
    state.players[1].points = 12;
    state.players[0].answered = true;
    state.players[0].rating = 1000;
    state.players[1].rating = 900;
    state.advance_game(0, 2, 48 * SEC);

    assert!(state.games.is_empty());
    assert_eq!(state.packets.len(), 4);
    assert_eq!(state.packets[0].0, 2);
    assert_eq!(state.packets[1].0, 1);
    assert_eq!(state.packets[2].0, 2);
    assert_eq!(state.packets[3].0, 1);
    let end_first = round_doc(&state.packets[0].1);
    let end_second = round_doc(&state.packets[1].1);
    assert_eq!(end_first.get_i32("PacketID"), Ok(4));
    assert_eq!(end_first.get_str("Winner"), Ok("alice"));
    assert_eq!(end_second.get_str("Winner"), Ok("alice"));
    let last_first = round_doc(&state.packets[2].1);
    let last_second = round_doc(&state.packets[3].1);
    assert_eq!(last_first.get_i32("PacketID"), Ok(2));
    assert_eq!(last_first.get_i32("Points"), Ok(12));
    assert_eq!(last_first.get_i32("EnemyPoints"), Ok(20));
    assert_eq!(last_first.get_str("Question"), Ok("question 2"));
    assert_eq!(last_second.get_i32("Points"), Ok(20));
    assert_eq!(last_second.get_i32("EnemyPoints"), Ok(12));

    let alice = &state.players[0];
    let bob = &state.players[1];
    assert_eq!((alice.win_count, alice.lose_count), (1, 0));
    assert_eq!((bob.win_count, bob.lose_count), (0, 1));
    assert_eq!(alice.rating, 1000);
    assert_eq!(bob.rating, 900);
    assert_eq!((alice.points, alice.answered, alice.game_id), (0, false, None));
    assert_eq!((bob.points, bob.answered, bob.game_id), (0, false, None));
    assert_eq!(
        state.saves,
        vec![
            RankUpdate { id: 102, rating: 900, win_count: 0, lose_count: 1 },
            RankUpdate { id: 101, rating: 1000, win_count: 1, lose_count: 0 },
        ]
    );
}

#[test]
fn settled_players_may_be_matched_again() {
    let mut state = round_paired(false);
    for k in 0..4 {
        state.advance_game(0, k, k as i64 * SEC);
    }
    assert!(state.games.is_empty());
    assert_eq!(state.join_queue(1, true, 50 * SEC), Ok(()));
    assert_eq!(state.join_queue(2, true, 51 * SEC), Ok(()));
    assert_eq!(state.games.len(), 1);
    assert_eq!(state.games[0].id, 1);
}

#[test]
fn competitive_win_adds_ten_rating_to_the_winner_only() {
    let mut state = round_paired(true);
    state.advance_game(0, 0, 3 * SEC);
    state.advance_game(0, 1, 18 * SEC);
    state.advance_game(0, 3, 33 * SEC);
    state.players[0].points = 5;
    state.players[1].points = 30;
    state.players[0].rating = 1000;
    state.players[1].rating = 900;
    state.advance_game(0, 2, 48 * SEC);
    assert_eq!(state.players[0].rating, 1000);
    assert_eq!(state.players[1].rating, 910);
    assert_eq!(state.players[1].win_count, 1);
    assert_eq!(state.players[0].lose_count, 1);
    assert_eq!(
        state.saves,
        vec![
            RankUpdate { id: 102, rating: 910, win_count: 1, lose_count: 0 },
            RankUpdate { id: 101, rating: 1000, win_count: 0, lose_count: 1 },
        ]
    );
}

#[test]
fn tie_names_no_winner_and_moves_no_rating_or_record() {
    let mut state = round_paired(true);
    state.advance_game(0, 0, 3 * SEC);
    state.advance_game(0, 1, 18 * SEC);
    state.advance_game(0, 3, 33 * SEC);
    state.packets.clear();
    state.players[0].points = 13;
    state.players[1].points = 13;
    state.players[0].rating = 1000;
    state.players[1].rating = 900;
    state.players[0].win_count = 4;
    state.players[1].lose_count = 7;
    state.advance_game(0, 2, 48 * SEC);
    let end = round_doc(&state.packets[0].1);
    assert_eq!(end.get_str("Winner"), Ok("-"));
    let end = round_doc(&state.packets[1].1);
    assert_eq!(end.get_str("Winner"), Ok("-"));
    assert_eq!(state.players[0].rating, 1000);
    assert_eq!(state.players[1].rating, 900);
    assert_eq!((state.players[0].win_count, state.players[0].lose_count), (4, 0));
    assert_eq!((state.players[1].win_count, state.players[1].lose_count), (0, 7));
    assert_eq!(
        state.saves,
        vec![
            RankUpdate { id: 102, rating: 900, win_count: 0, lose_count: 7 },
            RankUpdate { id: 101, rating: 1000, win_count: 4, lose_count: 0 },
        ]
    );
    assert!(state.games.is_empty());
    assert_eq!((state.players[0].points, state.players[0].game_id), (0, None));
}

#[test]
fn tie_at_zero_points_moves_no_record() {
    let mut state = round_paired(false);
    poll_game(&mut state, 3 * SEC);
    poll_game(&mut state, 18 * SEC);
    poll_game(&mut state, 33 * SEC);
    poll_game(&mut state, 48 * SEC);
    assert!(state.games.is_empty());
    assert_eq!((state.players[0].win_count, state.players[0].lose_count), (0, 0));
    assert_eq!((state.players[1].win_count, state.players[1].lose_count), (0, 0));
}

#[test]
fn settlement_is_not_repeated() {
    let mut state = round_paired(false);
    poll_game(&mut state, 3 * SEC);
    poll_game(&mut state, 18 * SEC);
    poll_game(&mut state, 33 * SEC);
    poll_game(&mut state, 48 * SEC);
    assert!(state.games.is_empty());
    assert_eq!(state.saves.len(), 2);
    let packets = state.packets.len();
    state.players[0].points = 8;
    poll_game(&mut state, 63 * SEC);
    poll_game(&mut state, 100 * SEC);
    assert!(state.games.is_empty());
    assert_eq!(state.saves.len(), 2);
    assert_eq!(state.packets.len(), packets);
    assert_eq!(state.players[0].points, 8);
}

#[test]
fn a_full_match_uses_four_different_questions() {
    for _ in 0..30 {
        let mut state = State::new(round_bank(4));
        state.add_player(1);
        state.add_player(2);
        assert!(state.join_queue(1, false, 0).is_ok());
        assert!(state.join_queue(2, false, 0).is_ok());
        state.packets.clear();
        poll_game(&mut state, 3 * SEC);
        poll_game(&mut state, 18 * SEC);
        poll_game(&mut state, 33 * SEC);
        poll_game(&mut state, 48 * SEC);
        assert!(state.games.is_empty());
        let mut texts = Vec::new();
        for (_, bytes) in state.packets.iter() {
            let d = round_doc(bytes);
            if d.get_i32("PacketID") == Ok(2) {
                texts.push(d.get_str("Question").unwrap().to_string());
            }
        }
        assert_eq!(texts.len(), 8);
        for k in 0..4 {
            assert_eq!(texts[2 * k], texts[2 * k + 1]);
        }
        let mut seen: Vec<String> = Vec::new();
        for k in 0..4 {
            assert!(!seen.contains(&texts[2 * k]));
            seen.push(texts[2 * k].clone());
        }
    }
}

#[test]
fn poll_moves_the_youngest_match_first() {
    let mut state = State::new(round_bank(4));
    for peer in 1..=4 {
        state.add_player(peer);
    }
    assert!(state.join_queue(1, false, 0).is_ok());
    assert!(state.join_queue(2, false, 0).is_ok());
    assert!(state.join_queue(3, false, 0).is_ok());
    assert!(state.join_queue(4, false, 0).is_ok());
    state.packets.clear();
    poll_game(&mut state, 3 * SEC);
    let to: Vec<u64> = state.packets.iter().map(|p| p.0).collect();
    assert_eq!(to, vec![4, 3, 2, 1]);
}

#[test]
fn poll_moves_only_due_matches() {
    let mut state = State::new(round_bank(4));
    for peer in 1..=4 {
        state.add_player(peer);
    }
    assert!(state.join_queue(1, false, 0).is_ok());
    assert!(state.join_queue(2, false, 0).is_ok());
    assert!(state.join_queue(3, false, 2 * SEC).is_ok());
    assert!(state.join_queue(4, false, 2 * SEC).is_ok());
    poll_game(&mut state, 4 * SEC);
    assert_eq!(state.games[0].stage, 1);
    assert_eq!(state.games[1].stage, 0);
}

#[test]
fn right_answer_scores_by_the_second() {
    let mut state = round_paired(false);
    poll_game(&mut state, 3 * SEC);
    state.packets.clear();
    let right = round_right_answer(&state);
    assert_eq!(state.submit_answer(1, right, 3 * SEC + 4 * SEC + 999_999_999), Ok(()));
    assert_eq!(state.players[0].points, 11);
    assert!(state.players[0].answered);
    assert_eq!(state.packets.len(), 1);
    assert_eq!(state.packets[0].0, 1);
    let ack = round_doc(&state.packets[0].1);
    assert_eq!(ack.get_i32("PacketID"), Ok(3));
    assert_eq!(ack.get_i32("AnswerIndex"), Ok(right));
    assert_eq!(state.players[1].points, 0);
    assert!(!state.players[1].answered);
}

#[test]
fn wrong_answer_scores_nothing_and_learns_the_right_one() {
    let mut state = round_paired(false);
    poll_game(&mut state, 3 * SEC);
    state.packets.clear();
    let right = round_right_answer(&state);
    assert_eq!(state.submit_answer(2, right + 1, 4 * SEC), Ok(()));
    assert_eq!(state.players[1].points, 0);
    assert!(state.players[1].answered);
    let ack = round_doc(&state.packets[0].1);
    assert_eq!(ack.get_i32("AnswerIndex"), Ok(right));
}

#[test]
fn late_right_answer_costs_points() {
    let mut state = round_paired(false);
    poll_game(&mut state, 3 * SEC);
    let right = round_right_answer(&state);
    state.players[0].points = 2;
    assert_eq!(state.submit_answer(1, right, 3 * SEC + 20 * SEC), Ok(()));
    assert_eq!(state.players[0].points, -3);
}

#[test]
fn answering_twice_is_rejected() {
    let mut state = round_paired(false);
    poll_game(&mut state, 3 * SEC);
    let right = round_right_answer(&state);
    assert_eq!(state.submit_answer(1, right, 4 * SEC), Ok(()));
    let points = state.players[0].points;
    let packets = state.packets.len();
    assert_eq!(state.submit_answer(1, right, 5 * SEC), Err(Fault::AnsweredTwice));
    assert_eq!(state.players[0].points, points);
    assert_eq!(state.packets.len(), packets);
}

#[test]
fn answering_outside_a_match_is_rejected() {
    let mut state = State::new(round_bank(4));
    state.add_player(1);
    assert_eq!(state.submit_answer(1, 0, 0), Err(Fault::NotInMatch));
    assert!(!state.players[0].answered);
    assert!(state.packets.is_empty());
}

#[test]
fn answer_before_the_first_round_counts_against_option_zero() {
    let mut state = round_paired(false);
    assert_eq!(state.submit_answer(1, 0, 2 * SEC), Ok(()));
    assert_eq!(state.players[0].points, 13);
    let ack = round_doc(&state.packets[0].1);
    assert_eq!(ack.get_i32("AnswerIndex"), Ok(0));
}

#[test]
fn lone_answer_does_not_shorten_the_round() {
    let mut state = round_paired(false);
    poll_game(&mut state, 3 * SEC);
    let right = round_right_answer(&state);
    assert_eq!(state.submit_answer(1, right, 5 * SEC), Ok(()));
    assert_eq!(state.games[0].stage_timer, 3 * SEC);
    poll_game(&mut state, 18 * SEC - 1);
    assert_eq!(state.games[0].stage, 1);
}

#[test]
fn both_answers_after_the_floor_do_not_shorten_the_round() {
    let mut state = round_paired(false);
    poll_game(&mut state, 3 * SEC);
    let right = round_right_answer(&state);
    assert_eq!(state.submit_answer(1, right, 5 * SEC), Ok(()));
    assert_eq!(state.submit_answer(2, right, 3 * SEC + 12 * SEC), Ok(()));
    assert_eq!(state.games[0].stage_timer, 3 * SEC);
    assert_eq!(state.players[1].points, 3);
}

#[test]
fn both_answers_before_the_floor_leave_three_seconds() {
    let mut state = round_paired(false);
    poll_game(&mut state, 3 * SEC);
    let right = round_right_answer(&state);
    assert_eq!(state.submit_answer(1, right, 5 * SEC), Ok(()));
    let second = 3 * SEC + 12 * SEC - 1;
    assert_eq!(state.submit_answer(2, right, second), Ok(()));
    assert_eq!(state.players[1].points, 4);
    assert_eq!(state.games[0].stage_timer, second - 12 * SEC);
    poll_game(&mut state, second + 3 * SEC - 1);
    assert_eq!(state.games[0].stage, 1);
    poll_game(&mut state, second + 3 * SEC);
    assert_eq!(state.games[0].stage, 2);
}

#[test]
fn two_players_answer_and_the_round_ends_early() {
    let mut state = State::new(round_bank(5));
    state.add_player(10);
    state.add_player(20);
    assert_eq!(state.join_queue(10, false, 0), Ok(()));
    assert_eq!(state.join_queue(20, false, 0), Ok(()));
    state.packets.clear();

    poll_game(&mut state, 3 * SEC);
    assert_eq!(state.packets.len(), 2);
    let one = round_doc(&state.packets[0].1);
    let two = round_doc(&state.packets[1].1);
    assert_ne!(state.packets[0].0, state.packets[1].0);
    for key in ["Question", "AnswerOption1", "AnswerOption2", "AnswerOption3", "AnswerOption4"] {
        assert_eq!(one.get_str(key), two.get_str(key));
        assert!(one.get_str(key).is_ok());
    }

    let start = state.games[0].stage_timer;
    let right = round_right_answer(&state);
    assert_eq!(state.submit_answer(10, right, start + 2 * SEC), Ok(()));
    assert_eq!(state.submit_answer(20, right, start + 5 * SEC), Ok(()));
    assert_eq!(state.players[0].points, 13);
    assert_eq!(state.players[1].points, 10);

    poll_game(&mut state, start + 5 * SEC + 3 * SEC - 1);
    assert_eq!(state.games[0].stage, 1);
    poll_game(&mut state, start + 5 * SEC + 3 * SEC);
    assert_eq!(state.games[0].stage, 2);
    assert!(start + 8 * SEC < start + 15 * SEC);
    assert!(!state.players[0].answered);
    assert!(!state.players[1].answered);
}

#[test]
fn disconnect_abandons_the_opponent() {
    let mut state = round_paired(false);
    poll_game(&mut state, 3 * SEC);
    state.players[0].points = 9;
    state.packets.clear();
    state.remove_player(2);

    assert!(state.games.is_empty());
    assert_eq!(state.players.len(), 1);
    let left = &state.players[0];
    assert_eq!(left.peer_id, 1);
    assert_eq!(left.game_id, Some(0));
    assert_eq!(left.points, 9);

    poll_game(&mut state, 18 * SEC);
    poll_game(&mut state, 60 * SEC);
    assert!(state.packets.is_empty());
    assert!(state.saves.is_empty());
    assert_eq!(state.players[0].game_id, Some(0));
    assert_eq!(state.players[0].points, 9);

    assert_eq!(state.submit_answer(1, 0, 19 * SEC), Err(Fault::NotInMatch));
}

#[test]
fn abandoned_player_can_be_matched_again() {
    let mut state = round_paired(false);
    state.remove_player(2);
    state.add_player(3);
    assert_eq!(state.join_queue(1, false, 5 * SEC), Ok(()));
    assert_eq!(state.join_queue(3, false, 6 * SEC), Ok(()));
    assert_eq!(state.games.len(), 1);
    assert_eq!(state.games[0].id, 1);
    assert_eq!(state.players[0].game_id, Some(1));
    assert_eq!(state.submit_answer(1, 0, 7 * SEC), Ok(()));
}

#[test]
fn find_game_looks_up_by_id() {
    let mut state = State::new(round_bank(4));
    for peer in 1..=4 {
        state.add_player(peer);
    }
    state.add_game(1, 2, false, 0);
    state.add_game(3, 4, false, 0);
    assert_eq!(state.find_game(0), Some(0));
    assert_eq!(state.find_game(1), Some(1));
    assert_eq!(state.find_game(2), None);
    state.remove_player(1);
    assert_eq!(state.find_game(0), None);
    assert_eq!(state.find_game(1), Some(0));
}
