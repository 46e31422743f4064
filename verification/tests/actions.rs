//! Tests for the action layer: initialization, drawing, playing,
//! executing, and the round counter.

use card_room::action::{
    Action, BumpRound, DrawCards, ExecuteCard, GameFinished, Initalize, PlayCard, StartTurn,
};
use card_room::card::{default_registry, CardId, Registry};
use card_room::player::PlayerId;
use card_room::room::compute_snapshot;
use card_room::store::Entity;
use card_room::system::System;

fn fresh_world(reg: &Registry) -> System {
    let mut w = System::new();
    Initalize.perform(&mut w, reg);
    w
}

#[test]
fn initalize_builds_the_starting_position() {
    let reg = default_registry();
    let w = fresh_world(&reg);
    let s0 = compute_snapshot(&w, PlayerId::Player0);
    let s1 = compute_snapshot(&w, PlayerId::Player1);
    assert_eq!(s0.self_hand.len(), 0);
    assert_eq!(s1.self_hand.len(), 0);
    assert_eq!(s0.self_deck_count, 30);
    assert_eq!(s1.self_deck_count, 30);
    assert_eq!(s0.other_deck_count, 30);
    assert_eq!(s0.other_hand_count, 0);
    assert_eq!(s0.round, 0);
    assert!(!s0.finished);
    assert!(!s0.is_your_turn);
    assert_eq!(s0.self_faith, vec![30, 31, 32]);
    assert_eq!(s1.self_faith, vec![64, 65, 66]);
}

#[test]
fn draw_conserves_hand_plus_deck() {
    let reg = default_registry();
    let mut w = fresh_world(&reg);
    let p = PlayerId::Player0;
    let before = compute_snapshot(&w, p);
    assert_eq!(before.self_hand.len() as u32 + before.self_deck_count, 30);

    let drawn = DrawCards { player: p, count: 5 }.perform(&mut w, &reg);
    assert_eq!(drawn.len(), 5);
    let mid = compute_snapshot(&w, p);
    assert_eq!(mid.self_hand.len(), 5);
    assert_eq!(mid.self_deck_count, 25);
    assert_eq!(mid.self_hand.len() as u32 + mid.self_deck_count, 30);

    let drawn2 = DrawCards { player: p, count: 7 }.perform(&mut w, &reg);
    assert_eq!(drawn2.len(), 7);
    let after = compute_snapshot(&w, p);
    assert_eq!(after.self_hand.len() as u32 + after.self_deck_count, 30);
    // The opponent's zones are untouched.
    assert_eq!(after.other_deck_count, 30);
    assert_eq!(after.other_hand_count, 0);
}

#[test]
fn draw_from_short_deck_yields_the_remainder() {
    let reg = default_registry();
    let mut w = fresh_world(&reg);
    let p = PlayerId::Player1;
    let drawn = DrawCards { player: p, count: 28 }.perform(&mut w, &reg);
    assert_eq!(drawn.len(), 28);
    // Only two cards remain; asking for forty is not an error.
    let drawn2 = DrawCards { player: p, count: 40 }.perform(&mut w, &reg);
    assert_eq!(drawn2.len(), 2);
    let s = compute_snapshot(&w, p);
    assert_eq!(s.self_deck_count, 0);
    assert_eq!(s.self_hand.len(), 30);
    let drawn3 = DrawCards { player: p, count: 3 }.perform(&mut w, &reg);
    assert_eq!(drawn3.len(), 0);
}

#[test]
fn draw_pops_the_top_of_the_deck() {
    let reg = default_registry();
    let mut w = fresh_world(&reg);
    // Player 0's deck is the entities 0..30, top last.
    let drawn = DrawCards { player: PlayerId::Player0, count: 3 }.perform(&mut w, &reg);
    let ids: Vec<u32> = drawn.iter().map(|e| e.id()).collect();
    assert_eq!(ids, vec![29, 28, 27]);
}

#[test]
fn bump_round_is_strictly_monotonic() {
    let reg = default_registry();
    let mut w = fresh_world(&reg);
    assert_eq!(compute_snapshot(&w, PlayerId::Player0).round, 0);
    BumpRound.perform(&mut w, &reg);
    assert_eq!(compute_snapshot(&w, PlayerId::Player0).round, 1);
    BumpRound.perform(&mut w, &reg);
    assert_eq!(compute_snapshot(&w, PlayerId::Player0).round, 2);
}

#[test]
fn start_and_end_turn_toggle_the_marker() {
    let reg = default_registry();
    let mut w = fresh_world(&reg);
    let p = PlayerId::Player0;
    assert!(!compute_snapshot(&w, p).is_your_turn);
    StartTurn { player: p, now: 0 }.perform(&mut w, &reg);
    assert!(compute_snapshot(&w, p).is_your_turn);
    assert!(!compute_snapshot(&w, PlayerId::Player1).is_your_turn);
    card_room::action::EndTurn { player: p }.perform(&mut w, &reg);
    assert!(!compute_snapshot(&w, p).is_your_turn);
}

#[test]
fn play_card_removes_the_hand_marker_idempotently() {
    let reg = default_registry();
    let mut w = fresh_world(&reg);
    let p = PlayerId::Player0;
    let drawn = DrawCards { player: p, count: 4 }.perform(&mut w, &reg);
    let card = drawn[0];
    assert_eq!(compute_snapshot(&w, p).self_hand.len(), 4);
    PlayCard { player: p, card }.perform(&mut w, &reg);
    assert_eq!(compute_snapshot(&w, p).self_hand.len(), 3);
    // Playing a card that is no longer in hand is a harmless no-op.
    PlayCard { player: p, card }.perform(&mut w, &reg);
    assert_eq!(compute_snapshot(&w, p).self_hand.len(), 3);
    // So is "playing" an entity that never was a card in hand.
    PlayCard { player: p, card: Entity::from_id(9999) }.perform(&mut w, &reg);
    assert_eq!(compute_snapshot(&w, p).self_hand.len(), 3);
}

#[test]
fn execute_card_resolves_the_draw_skill() {
    let reg = default_registry();
    let mut w = fresh_world(&reg);
    let p = PlayerId::Player0;
    let before = compute_snapshot(&w, p);
    ExecuteCard { player: p, card_id: CardId(7001) }.perform(&mut w, &reg);
    let after = compute_snapshot(&w, p);
    assert_eq!(after.self_hand.len(), before.self_hand.len() + 1);
    assert_eq!(after.self_deck_count, before.self_deck_count - 1);

    // The two-card order draws two.
    ExecuteCard { player: p, card_id: CardId(7002) }.perform(&mut w, &reg);
    let last = compute_snapshot(&w, p);
    assert_eq!(last.self_hand.len(), after.self_hand.len() + 2);
}

#[test]
fn execute_unknown_or_faith_card_is_a_silent_no_op() {
    let reg = default_registry();
    let mut w = fresh_world(&reg);
    let p = PlayerId::Player0;
    let before = compute_snapshot(&w, p);
    ExecuteCard { player: p, card_id: CardId(424242) }.perform(&mut w, &reg);
    let after_unknown = compute_snapshot(&w, p);
    assert_eq!(before.self_hand, after_unknown.self_hand);
    assert_eq!(before.self_deck_count, after_unknown.self_deck_count);
    assert_eq!(before.debug_log.len(), after_unknown.debug_log.len());
    ExecuteCard { player: p, card_id: CardId(8001) }.perform(&mut w, &reg);
    let after_faith = compute_snapshot(&w, p);
    assert_eq!(before.self_deck_count, after_faith.self_deck_count);
    assert_eq!(before.debug_log.len(), after_faith.debug_log.len());
}

#[test]
fn game_finished_sets_the_flag() {
    let reg = default_registry();
    let mut w = fresh_world(&reg);
    assert!(!compute_snapshot(&w, PlayerId::Player0).finished);
    GameFinished.perform(&mut w, &reg);
    assert!(compute_snapshot(&w, PlayerId::Player0).finished);
    assert_eq!(compute_snapshot(&w, PlayerId::Player0).round, 0);
}

#[test]
fn every_action_appends_a_log_line() {
    let reg = default_registry();
    let mut w = fresh_world(&reg);
    let n0 = compute_snapshot(&w, PlayerId::Player0).debug_log.len();
    BumpRound.perform(&mut w, &reg);
    assert_eq!(compute_snapshot(&w, PlayerId::Player0).debug_log.len(), n0 + 1);
    DrawCards { player: PlayerId::Player0, count: 1 }.perform(&mut w, &reg);
    assert_eq!(compute_snapshot(&w, PlayerId::Player0).debug_log.len(), n0 + 2);
}
