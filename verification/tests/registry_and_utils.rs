//! Tests for the card registry, the timer, the running-match view, and
//! the reply parsers.

use card_room::card::{default_registry, CardDef, CardId, Registry, SkillDef};
use card_room::store::Entity;
use card_room::system::{Component, ComponentKind, System};
use card_room::events::{
    turn_action_from_reply, EndTurnEvent, PayCostEvent, PlayCardEvent, TurnAction, UserEventType,
};
use card_room::player::PlayerId;
use card_room::running::RunningGame;
use card_room::utils::Timer;

#[test]
fn default_registry_holds_the_stock_cards() {
    let reg = default_registry();
    assert_eq!(reg.cost(CardId(7001)), Some(0));
    assert_eq!(reg.cost(CardId(7002)), Some(1));
    // Faith cards carry no cost, and unknown identifiers none either.
    assert_eq!(reg.cost(CardId(8001)), None);
    assert_eq!(reg.cost(CardId(31337)), None);
    assert!(reg.lookup(CardId(31337)).is_none());
    match reg.lookup(CardId(7002)).unwrap() {
        CardDef::Order(o) => {
            assert_eq!(o.skills, vec![SkillDef::DrawCards(2)]);
            assert_eq!(o.cost, 1);
        }
        _ => panic!("7002 must be an order card"),
    }
    match reg.lookup(CardId(8001)).unwrap() {
        CardDef::Faith(f) => assert_eq!(f.card_id, CardId(8001)),
        _ => panic!("8001 must be a faith card"),
    }
}

#[test]
fn registry_lists_prototypes_in_registration_order() {
    let reg = default_registry();
    let protos = reg.get_card_prototypes();
    let numbers: Vec<u32> = protos.iter().map(|p| p.card_id).collect();
    assert_eq!(numbers, vec![7001, 7002, 8001]);
    assert_eq!(protos[0].description.as_str(), "Draw a card.");
}

#[test]
fn a_fresh_registry_learns_cards_one_by_one() {
    let mut reg = Registry::new();
    assert!(reg.lookup(CardId(5)).is_none());
    reg.add_faith(CardId(5), "Token".to_string(), "A token.".to_string());
    assert!(matches!(reg.lookup(CardId(5)), Some(CardDef::Faith(_))));
    reg.add_order(
        CardId(6),
        "Cantrip".to_string(),
        "Draw a card.".to_string(),
        0,
        vec![SkillDef::DrawCards(1)],
    );
    assert_eq!(reg.cost(CardId(6)), Some(0));
    assert_eq!(reg.card_numbers(), vec![5, 6]);
}

#[test]
fn timer_counts_down_and_pauses() {
    let t = Timer::new(30, 100);
    assert_eq!(t.remaining(100), 30);
    assert_eq!(t.remaining(110), 20);
    assert_eq!(t.remaining(130), 0);
    assert_eq!(t.remaining(1000), 0);

    let mut t2 = Timer::new(30, 100);
    t2.pause(112);
    // Paused: the clock no longer advances against it.
    assert_eq!(t2.remaining(500), 18);
    t2.start(500);
    assert_eq!(t2.remaining(500), 18);
    assert_eq!(t2.remaining(510), 8);
}

#[test]
fn running_game_reports_members_and_counts() {
    let g = RunningGame::new("alice".to_string(), "bob".to_string());
    assert!(g.is_player(&"alice".to_string()));
    assert!(g.is_player(&"bob".to_string()));
    assert!(!g.is_player(&"carol".to_string()));
    assert!(g.is_player_one(&"alice".to_string()));
    assert!(g.is_player_two(&"bob".to_string()));

    let view = g.to_client(true);
    assert_eq!(view.self_hand.len(), 0);
    assert_eq!(view.self_deck_count, 30);
    assert_eq!(view.other_deck_count, 30);
    assert_eq!(view.other_hand_count, 0);
}

#[test]
fn reply_parsers_reject_ill_typed_answers() {
    let play = UserEventType::PlayCard(PlayCardEvent { entity: 3 });
    assert!(matches!(
        turn_action_from_reply(play),
        Ok(TurnAction::PlayCard(PlayCardEvent { entity: 3 }))
    ));
    let end = UserEventType::EndTurn(EndTurnEvent {});
    assert!(matches!(turn_action_from_reply(end), Ok(TurnAction::EndTurn(_))));
    let pay = UserEventType::PayCost(PayCostEvent { providers: vec![1] });
    assert!(turn_action_from_reply(pay).is_err());
}

#[test]
fn opposite_player_is_an_involution() {
    assert_eq!(PlayerId::Player0.opp(), PlayerId::Player1);
    assert_eq!(PlayerId::Player1.opp(), PlayerId::Player0);
    assert_eq!(PlayerId::Player0.opp().opp(), PlayerId::Player0);
    assert_eq!(PlayerId::Player0.index(), 0);
    assert_eq!(PlayerId::Player1.index(), 1);
}

#[test]
fn entities_spawn_carry_and_lose_components() {
    let mut w = System::new();
    let e = w.spawn(vec![
        Component::CardId(CardId(5)),
        Component::InHand(card_room::card::InHand(PlayerId::Player0)),
    ]);
    assert_eq!(e.id(), 0);
    assert!(w.has_component(e, ComponentKind::CardId));
    assert!(w.has_component(e, ComponentKind::InHand));
    assert!(!w.has_component(e, ComponentKind::Faith));
    // A second component of a kind the entity already has is refused.
    assert!(w.add_component(e, Component::CardId(CardId(9))).is_err());
    assert_eq!(w.get_card_id(e), Some(CardId(5)));
    w.despawn(e);
    assert!(!w.has_component(e, ComponentKind::CardId));
    assert!(!w.has_component(e, ComponentKind::InHand));
    // Identifiers are never reused after a despawn.
    let e2 = w.spawn(vec![Component::CardId(CardId(6))]);
    assert_eq!(e2.id(), 1);
    assert_eq!(Entity::from(7u32).id(), 7);
}
