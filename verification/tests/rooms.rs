//! Tests for the room coordinator and the session manager: joining,
//! the correlation table, reconnection replay, privacy of snapshots,
//! and the full game loop.

use card_room::card::default_registry;
use card_room::events::{
    EndTurnEvent, GameEvent, PayCostEvent, PlayCardEvent, RequestEventType, UserEventType,
};
use card_room::game::Game;
use card_room::player::PlayerId;
use card_room::room::{Flow, JoinOutcome, RoomError};

fn end_turn() -> UserEventType {
    UserEventType::EndTurn(EndTurnEvent {})
}

/// The sequence number the room's loop is currently waiting on.
fn awaited(game: &Game, room_id: usize) -> Option<usize> {
    match game.room(room_id).unwrap().current_flow() {
        Flow::AwaitTurnAction { seqnum, .. } => Some(seqnum),
        Flow::AwaitCost { seqnum, .. } => Some(seqnum),
        _ => None,
    }
}

/// The latest state-update snapshot published to `p`.
fn latest_snapshot(
    game: &Game,
    room_id: usize,
    p: PlayerId,
) -> Option<card_room::events::Snapshot> {
    let room = game.room(room_id).unwrap();
    let n = room.event_count(p);
    let mut i = n;
    while i > 0 {
        i -= 1;
        if let Some(GameEvent::StateUpdate(s)) = room.event_at(p, i) {
            return Some(s.clone());
        }
    }
    None
}

#[test]
fn join_scenario_created_then_joined_then_full() {
    let reg = default_registry();
    let mut game = Game::new();
    let r1 = game.join_room("alice".to_string(), "r1".to_string(), &reg, 0);
    assert!(r1.success);
    assert!(r1.created);
    assert_eq!(r1.outcome, JoinOutcome::Created);
    assert_eq!(r1.room_id, 0);

    let r2 = game.join_room("bob".to_string(), "r1".to_string(), &reg, 0);
    assert!(r2.success);
    assert!(!r2.created);
    assert_eq!(r2.outcome, JoinOutcome::Started);
    assert_eq!(r2.room_id, 0);
    // The second distinct player started the game loop: it now waits for
    // player 0's first turn action.
    assert!(matches!(
        game.room(0).unwrap().current_flow(),
        Flow::AwaitTurnAction { player: PlayerId::Player0, .. }
    ));

    let r3 = game.join_room("carol".to_string(), "r1".to_string(), &reg, 0);
    assert!(!r3.success);
    assert!(!r3.created);
    assert_eq!(r3.outcome, JoinOutcome::Full);
    assert_eq!(r3.message.as_str(), "The room is full.");

    // Rejoining is idempotent, not an error.
    let r4 = game.join_room("alice".to_string(), "r1".to_string(), &reg, 0);
    assert!(r4.success);
    assert!(!r4.created);
    assert_eq!(r4.outcome, JoinOutcome::AlreadyIn);
}

#[test]
fn advisory_countdown_ticks_and_replays_accurately() {
    let reg = default_registry();
    let mut game = Game::new();
    game.join_room("alice".to_string(), "r1".to_string(), &reg, 0);
    game.join_room("bob".to_string(), "r1".to_string(), &reg, 0);
    // Three seconds pass on the app's ticker.
    assert_eq!(game.countdown_pending(0, PlayerId::Player0), Some(19));
    assert_eq!(game.countdown_pending(0, PlayerId::Player0), Some(18));
    assert_eq!(game.countdown_pending(0, PlayerId::Player0), Some(17));
    // Nothing is pending for the opponent.
    assert_eq!(game.countdown_pending(0, PlayerId::Player1), None);
    // A reconnecting client sees the decremented remaining time.
    let before = game.room(0).unwrap().event_count(PlayerId::Player0);
    game.enter_game(0, &"alice".to_string()).unwrap();
    let room = game.room(0).unwrap();
    match room.event_at(PlayerId::Player0, before).unwrap() {
        GameEvent::RequestUserEvent(r) => assert_eq!(r.timeout, 17),
        _ => panic!("expected the pending request to be replayed first"),
    }
}

#[test]
fn the_log_records_what_happened_with_counts() {
    let reg = default_registry();
    let mut game = Game::new();
    game.join_room("alice".to_string(), "r1".to_string(), &reg, 0);
    game.join_room("bob".to_string(), "r1".to_string(), &reg, 0);
    let s0 = latest_snapshot(&game, 0, PlayerId::Player0).unwrap();
    // The log opens with exactly one game-start entry, then the first
    // turn's lines; the draw line reports the actual count drawn.
    assert_eq!(s0.debug_log[0].as_str(), "The game began.");
    assert_eq!(
        s0.debug_log
            .iter()
            .filter(|l| l.as_str() == "The game began.")
            .count(),
        1
    );
    assert!(s0.debug_log.iter().any(|l| l.as_str() == "Drew 1 cards."));
    // Playing entity 29 logs the entity number.
    let seq = awaited(&game, 0).unwrap();
    game.submit_user_event(
        0,
        seq,
        UserEventType::PlayCard(PlayCardEvent { entity: 29 }),
        &reg,
        0,
    )
    .unwrap();
    let s1 = latest_snapshot(&game, 0, PlayerId::Player0).unwrap();
    assert!(s1
        .debug_log
        .iter()
        .any(|l| l.as_str() == "Played the card held by entity 29."));
}

#[test]
fn distinct_rooms_get_distinct_identifiers() {
    let reg = default_registry();
    let mut game = Game::new();
    let a = game.join_room("alice".to_string(), "r1".to_string(), &reg, 0);
    let b = game.join_room("bob".to_string(), "r2".to_string(), &reg, 0);
    assert_eq!(a.room_id, 0);
    assert_eq!(b.room_id, 1);
    assert_eq!(game.room_count(), 2);
    assert!(game.room(2).is_err());
}

#[test]
fn submit_to_unknown_sequence_number_is_not_found() {
    let reg = default_registry();
    let mut game = Game::new();
    game.join_room("alice".to_string(), "r1".to_string(), &reg, 0);
    game.join_room("bob".to_string(), "r1".to_string(), &reg, 0);
    let r = game.submit_user_event(0, 999, end_turn(), &reg, 0);
    assert_eq!(r, Err(RoomError::NotFound));
    // An unknown room is a distinct failure.
    let r2 = game.submit_user_event(7, 0, end_turn(), &reg, 0);
    assert_eq!(r2, Err(RoomError::RoomNotFound));
}

#[test]
fn reconnection_redelivers_the_pending_request_verbatim() {
    let reg = default_registry();
    let mut game = Game::new();
    game.join_room("alice".to_string(), "r1".to_string(), &reg, 0);
    game.join_room("bob".to_string(), "r1".to_string(), &reg, 0);

    // Find the outstanding request on alice's channel.
    let (orig_seqnum, orig_cards) = {
        let room = game.room(0).unwrap();
        let n = room.event_count(PlayerId::Player0);
        let mut found = None;
        for i in 0..n {
            if let Some(GameEvent::RequestUserEvent(r)) = room.event_at(PlayerId::Player0, i) {
                if let RequestEventType::TurnAction(t) = &r.event_type {
                    found = Some((r.seqnum, t.playable_cards.clone()));
                }
            }
        }
        found.unwrap()
    };

    let before = game.room(0).unwrap().event_count(PlayerId::Player0);
    // Alice reconnects while the request is outstanding.
    game.enter_game(0, &"alice".to_string()).unwrap();
    let room = game.room(0).unwrap();
    // Exactly the pending request was re-delivered (plus one snapshot).
    let replay = room.event_at(PlayerId::Player0, before).unwrap();
    match replay {
        GameEvent::RequestUserEvent(r) => {
            assert_eq!(r.seqnum, orig_seqnum);
            match &r.event_type {
                RequestEventType::TurnAction(t) => {
                    assert_eq!(t.playable_cards, orig_cards);
                }
                _ => panic!("replayed request changed its payload"),
            }
        }
        _ => panic!("the pending request was not re-delivered first"),
    }
    // No second outstanding request was created: the loop still waits on
    // the same sequence number, and answering it once works.
    assert_eq!(awaited(&game, 0), Some(orig_seqnum as usize));
    let r = game.submit_user_event(0, orig_seqnum as usize, end_turn(), &reg, 0);
    assert!(r.is_ok());
    // A reconnect from a stranger is a distinct failure.
    assert_eq!(game.enter_game(0, &"mallory".to_string()), Err(RoomError::NotAPlayer));
}

#[test]
fn snapshots_hide_the_opponents_cards() {
    let reg = default_registry();
    let mut game = Game::new();
    game.join_room("alice".to_string(), "r1".to_string(), &reg, 0);
    game.join_room("bob".to_string(), "r1".to_string(), &reg, 0);
    // Player 0 has drawn a card; player 1's view shows only a count.
    let s1 = latest_snapshot(&game, 0, PlayerId::Player1).unwrap();
    assert_eq!(s1.other_hand_count, 1);
    assert_eq!(s1.self_hand.len(), 0);
    let s0 = latest_snapshot(&game, 0, PlayerId::Player0).unwrap();
    assert_eq!(s0.self_hand, vec![7001]);
    assert_eq!(s0.other_hand_count, 0);
}

#[test]
fn playing_a_free_card_resolves_its_effect() {
    let reg = default_registry();
    let mut game = Game::new();
    game.join_room("alice".to_string(), "r1".to_string(), &reg, 0);
    game.join_room("bob".to_string(), "r1".to_string(), &reg, 0);

    // Player 0 drew entity 29 (the top of the deck 0..30).
    let seq = awaited(&game, 0).unwrap();
    let r = game.submit_user_event(
        0,
        seq,
        UserEventType::PlayCard(PlayCardEvent { entity: 29 }),
        &reg,
        0,
    );
    assert!(r.is_ok());
    // Card 7001 costs nothing: it is played at once and draws one card,
    // so the hand holds one card again and the deck shrank by one more.
    let s0 = latest_snapshot(&game, 0, PlayerId::Player0).unwrap();
    assert_eq!(s0.self_hand.len(), 1);
    assert_eq!(s0.self_deck_count, 28);
    // The loop asks for the next turn action.
    assert!(matches!(
        game.room(0).unwrap().current_flow(),
        Flow::AwaitTurnAction { player: PlayerId::Player0, .. }
    ));
}

#[test]
fn a_costly_card_asks_for_payment_first() {
    let reg = default_registry();
    let mut game = Game::new();
    game.join_room("alice".to_string(), "r1".to_string(), &reg, 0);
    game.join_room("bob".to_string(), "r1".to_string(), &reg, 0);

    // End player 0's turn; player 1 draws entity 63 (a 7002, cost 1).
    let seq = awaited(&game, 0).unwrap();
    game.submit_user_event(0, seq, end_turn(), &reg, 0).unwrap();
    assert!(matches!(
        game.room(0).unwrap().current_flow(),
        Flow::AwaitTurnAction { player: PlayerId::Player1, .. }
    ));

    let seq = awaited(&game, 0).unwrap();
    game.submit_user_event(
        0,
        seq,
        UserEventType::PlayCard(PlayCardEvent { entity: 63 }),
        &reg,
        0,
    )
    .unwrap();
    // The room now runs the cost sub-protocol, offering the faith row.
    let room = game.room(0).unwrap();
    assert!(matches!(
        room.current_flow(),
        Flow::AwaitCost { player: PlayerId::Player1, card_entity: 63, card_id: 7002, .. }
    ));
    let n = room.event_count(PlayerId::Player1);
    match room.event_at(PlayerId::Player1, n - 1).unwrap() {
        GameEvent::RequestUserEvent(r) => match &r.event_type {
            RequestEventType::CostAction(c) => {
                assert_eq!(c.cost.unwrap().any, 1);
                let provider_entities: Vec<u32> =
                    c.providers.iter().map(|p| p.entity).collect();
                assert_eq!(provider_entities, vec![64, 65, 66]);
            }
            _ => panic!("expected a cost request"),
        },
        _ => panic!("expected a request event"),
    }

    // Paying plays the card: 7002 draws two.
    let seq = awaited(&game, 0).unwrap();
    game.submit_user_event(
        0,
        seq,
        UserEventType::PayCost(PayCostEvent { providers: vec![64] }),
        &reg,
        0,
    )
    .unwrap();
    let s1 = latest_snapshot(&game, 0, PlayerId::Player1).unwrap();
    assert_eq!(s1.self_hand.len(), 2);
    assert_eq!(s1.self_deck_count, 27);
}

#[test]
fn declining_a_cost_ends_the_turn() {
    let reg = default_registry();
    let mut game = Game::new();
    game.join_room("alice".to_string(), "r1".to_string(), &reg, 0);
    game.join_room("bob".to_string(), "r1".to_string(), &reg, 0);
    let seq = awaited(&game, 0).unwrap();
    game.submit_user_event(0, seq, end_turn(), &reg, 0).unwrap();
    let seq = awaited(&game, 0).unwrap();
    game.submit_user_event(
        0,
        seq,
        UserEventType::PlayCard(PlayCardEvent { entity: 63 }),
        &reg,
        0,
    )
    .unwrap();
    // Expire the cost request: the card is not played and the turn ends.
    let seq = awaited(&game, 0).unwrap();
    game.timeout_user_event(0, seq, &reg, 0);
    let s1 = latest_snapshot(&game, 0, PlayerId::Player1).unwrap();
    assert_eq!(s1.self_hand.len(), 1);
    assert!(!s1.is_your_turn);
    // Round one began, back to player 0; both views agree.
    assert!(matches!(
        game.room(0).unwrap().current_flow(),
        Flow::AwaitTurnAction { player: PlayerId::Player0, .. }
    ));
    assert_eq!(s1.round, 1);
    let s0 = latest_snapshot(&game, 0, PlayerId::Player0).unwrap();
    assert_eq!(s0.round, 1);
}

#[test]
fn sixty_end_turns_drain_the_decks_and_finish_once() {
    let reg = default_registry();
    let mut game = Game::new();
    game.join_room("alice".to_string(), "r1".to_string(), &reg, 0);
    game.join_room("bob".to_string(), "r1".to_string(), &reg, 0);

    let mut turns = 0;
    loop {
        match awaited(&game, 0) {
            Some(seq) => {
                game.submit_user_event(0, seq, end_turn(), &reg, 0).unwrap();
                turns += 1;
                assert!(turns <= 60, "the loop did not terminate on empty decks");
            }
            None => break,
        }
    }
    assert_eq!(turns, 60);
    assert!(matches!(game.room(0).unwrap().current_flow(), Flow::Done));

    let s0 = latest_snapshot(&game, 0, PlayerId::Player0).unwrap();
    let s1 = latest_snapshot(&game, 0, PlayerId::Player1).unwrap();
    assert!(s0.finished);
    assert!(s1.finished);
    assert_eq!(s0.self_deck_count, 0);
    assert_eq!(s0.other_deck_count, 0);
    assert_eq!(s0.self_hand.len(), 30);
    assert_eq!(s1.self_hand.len(), 30);
    // Exactly one game-finished step was performed.
    let over_lines = s0
        .debug_log
        .iter()
        .filter(|l| l.as_str() == "The game is over.")
        .count();
    assert_eq!(over_lines, 1);

    // Every sequence-number slot was freed on the way: a late reply is
    // answered "not found".
    for seq in 0..4 {
        assert_eq!(
            game.submit_user_event(0, seq, end_turn(), &reg, 0),
            Err(RoomError::NotFound)
        );
    }
}

#[test]
fn expiring_the_last_request_frees_its_slot() {
    let reg = default_registry();
    let mut game = Game::new();
    game.join_room("alice".to_string(), "r1".to_string(), &reg, 0);
    game.join_room("bob".to_string(), "r1".to_string(), &reg, 0);
    // Time every request out instead of answering: the server resolves
    // each as an implicit end of turn and the game still completes.
    let mut turns = 0;
    while let Some(seq) = awaited(&game, 0) {
        game.timeout_user_event(0, seq, &reg, 0);
        turns += 1;
        assert!(turns <= 60);
    }
    assert_eq!(turns, 60);
    // The final request's slot is free: the same number is "not found".
    assert_eq!(
        game.submit_user_event(0, 0, end_turn(), &reg, 0),
        Err(RoomError::NotFound)
    );
}
