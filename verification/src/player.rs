//! Player identities and per-player state.

use vstd::prelude::*;

use crate::card::{CardId, Faith, InDeck};
use crate::store::Entity;
use crate::system::{Component, ComponentKind, System};

verus! {

/// One of exactly two player slots.
#[derive(Debug, Clone, Copy, PartialEq, Eq, Hash, Structural)]
pub enum PlayerId {
    Player0,
    Player1,
}

impl PlayerId {
    /// Returns the opposite player ID.
    pub fn opp(self) -> (r: PlayerId)
        ensures
            r == self.spec_opp(),
    {
        match self {
            PlayerId::Player0 => PlayerId::Player1,
            PlayerId::Player1 => PlayerId::Player0,
        }
    }

    pub open spec fn spec_opp(self) -> PlayerId {
        match self {
            PlayerId::Player0 => PlayerId::Player1,
            PlayerId::Player1 => PlayerId::Player0,
        }
    }

    /// The slot number of this player, `0` or `1`.
    pub fn index(self) -> (r: u32)
        ensures
            r == self.spec_index(),
    {
        match self {
            PlayerId::Player0 => 0,
            PlayerId::Player1 => 1,
        }
    }

    pub open spec fn spec_index(self) -> u32 {
        match self {
            PlayerId::Player0 => 0u32,
            PlayerId::Player1 => 1u32,
        }
    }
}

/// The `opposite` map is a total involution: applying it twice gives the
/// original player back, and it never maps a player to itself.
pub proof fn opp_is_involutive(p: PlayerId)
    ensures
        p.spec_opp().spec_opp() == p,
        p.spec_opp() != p,
{
}

/// Marker component held by the player entity whose turn is in progress.
#[derive(Debug, Clone, Copy, PartialEq, Eq, Hash, Structural)]
pub struct CurrentTurn;

/// Mutable per-player game state: the ordered deck.
#[derive(Debug, Clone)]
#[verifier::ext_equal]
pub struct PlayerState {
    /// Card entities remaining in the player's deck; the top of the deck is
    /// the last element.
    pub deck: Vec<Entity>,
}


impl PlayerState {
    /// Spawns one card entity per deck card (tagged `InDeck`) and one per
    /// faith card (tagged `Faith`), and returns the deck list, top last.
    pub fn new(world: &mut System, player: PlayerId, deck: Vec<CardId>, faith: Vec<CardId>) -> (r:
        PlayerState)
        requires
            old(world).wf(),
            old(world).spec_entity_counter() + deck@.len() + faith@.len() <= u32::MAX,
        ensures
            final(world).wf(),
            final(world).spec_entity_counter() == old(world).spec_entity_counter() + deck@.len()
                + faith@.len(),
            r.deck@.len() == deck@.len(),
            forall|j: int|
                0 <= j < deck@.len() ==> (#[trigger] r.deck@[j])@ == old(
                    world,
                ).spec_entity_counter() + j,
            forall|j: int|
                0 <= j < deck@.len() ==> {
                    let e = old(world).spec_entity_counter() + j;
                    &&& final(world).card_ids().at(e) == Some(#[trigger] deck@[j])
                    &&& final(world).in_decks().at(e) == Some(InDeck(player))
                    &&& final(world).in_hands().at(e) is None
                    &&& final(world).players().at(e) is None
                    &&& final(world).player_states().at(e) is None
                    &&& final(world).current_turns().at(e) is None
                    &&& final(world).faiths().at(e) is None
                },
            forall|j: int|
                0 <= j < faith@.len() ==> {
                    let e = old(world).spec_entity_counter() + deck@.len() + j;
                    &&& final(world).card_ids().at(e) == Some(#[trigger] faith@[j])
                    &&& final(world).faiths().at(e) == Some(Faith(player))
                    &&& final(world).in_hands().at(e) is None
                    &&& final(world).in_decks().at(e) is None
                    &&& final(world).players().at(e) is None
                    &&& final(world).player_states().at(e) is None
                    &&& final(world).current_turns().at(e) is None
                },
            forall|k: ComponentKind, i: int|
                i < old(world).spec_entity_counter() ==> #[trigger] final(world).comp_at(k, i) == old(
                    world,
                ).comp_at(k, i),
            final(world).resources_eq(*old(world)),
            forall|p2: PlayerId| #[trigger] final(world).player_entity_ids(p2) == old(
                world,
            ).player_entity_ids(p2),
            forall|p2: PlayerId| #[trigger] final(world).in_hand_ids(p2) == old(world).in_hand_ids(p2),
            final(world).occupied_hand_ids() == old(world).occupied_hand_ids(),
            final(world).occupied_deck_ids().len() == old(world).occupied_deck_ids().len() + deck@.len(),
            final(world).faith_ids(player).len() == old(world).faith_ids(player).len() + faith@.len(),
            final(world).faith_ids(player.spec_opp()) == old(world).faith_ids(player.spec_opp()),
    {
        let ghost w0 = *world;
        let ghost c0 = w0.spec_entity_counter() as int;
        let ghost dl = deck@.len() as int;
        let mut out: Vec<Entity> = Vec::new();
        let mut di: usize = 0;
        while di < deck.len()
            invariant
                old(world).wf(),
                w0 == *old(world),
                c0 == w0.spec_entity_counter() as int,
                c0 + deck@.len() + faith@.len() <= u32::MAX,
                di <= deck@.len(),
                out@.len() == di,
                world.wf(),
                world.spec_entity_counter() == c0 + di,
                forall|j: int| 0 <= j < di ==> (#[trigger] out@[j])@ == c0 + j,
                forall|j: int|
                    0 <= j < di ==> {
                        let e = c0 + j;
                        &&& world.card_ids().at(e) == Some(#[trigger] deck@[j])
                        &&& world.in_decks().at(e) == Some(InDeck(player))
                        &&& world.in_hands().at(e) is None
                        &&& world.players().at(e) is None
                        &&& world.player_states().at(e) is None
                        &&& world.faiths().at(e) is None
                        &&& world.current_turns().at(e) is None
                    },
                forall|k: ComponentKind, i: int|
                    i < c0 ==> #[trigger] world.comp_at(k, i) == w0.comp_at(k, i),
                world.resources_eq(w0),
                forall|p2: PlayerId| #[trigger] world.player_entity_ids(p2)
                    == w0.player_entity_ids(p2),
                forall|p2: PlayerId| #[trigger] world.in_hand_ids(p2) == w0.in_hand_ids(p2),
                world.occupied_hand_ids() == w0.occupied_hand_ids(),
                world.occupied_deck_ids().len() == w0.occupied_deck_ids().len() + di,
                forall|p2: PlayerId| #[trigger] world.faith_ids(p2) == w0.faith_ids(p2),
            decreases deck@.len() - di,
        {
            let ghost wprev = *world;
            let card_id = deck[di];
            let mut comps: Vec<Component> = Vec::new();
            comps.push(Component::CardId(card_id));
            comps.push(Component::InDeck(InDeck(player)));
            let ghost gcomps = comps@;
            let e = world.spawn(comps);
            out.push(e);
            proof {
                assert(gcomps[0] == Component::CardId(card_id));
                assert(gcomps[1] == Component::InDeck(InDeck(player)));
                assert(world.comp_at(ComponentKind::CardId, e@ as int) == Some(
                    Component::CardId(card_id),
                ));
                assert(world.comp_at(ComponentKind::InDeck, e@ as int) == Some(
                    Component::InDeck(InDeck(player)),
                ));
                assert forall|k: ComponentKind|
                    k != ComponentKind::CardId && k != ComponentKind::InDeck implies #[trigger] world.comp_at(
                    k,
                    e@ as int,
                ) is None by {
                    assert(forall|j: int|
                        0 <= j < gcomps.len() ==> (#[trigger] gcomps[j]).kind() != k);
                }
                crate::system::lemma_game_view_after_card_spawn(
                    wprev,
                    *world,
                    card_id,
                    Component::InDeck(InDeck(player)),
                );
                assert forall|k: ComponentKind, i: int|
                    i < c0 implies #[trigger] world.comp_at(k, i) == w0.comp_at(k, i) by {
                    assert(world.comp_at(k, i) == wprev.comp_at(k, i));
                }
                assert forall|j: int|
                    0 <= j < di + 1 implies {
                        let ei = c0 + j;
                        &&& world.card_ids().at(ei) == Some(#[trigger] deck@[j])
                        &&& world.in_decks().at(ei) == Some(InDeck(player))
                        &&& world.in_hands().at(ei) is None
                        &&& world.players().at(ei) is None
                        &&& world.player_states().at(ei) is None
                        &&& world.faiths().at(ei) is None
                        &&& world.current_turns().at(ei) is None
                    } by {
                    let ei = c0 + j;
                    if j < di {
                        assert(wprev.card_ids().at(ei) == Some(deck@[j]));
                        assert(wprev.in_decks().at(ei) == Some(InDeck(player)));
                        assert(wprev.in_hands().at(ei) is None);
                        assert(wprev.players().at(ei) is None);
                        assert(wprev.player_states().at(ei) is None);
                        assert(wprev.faiths().at(ei) is None);
                        assert(wprev.current_turns().at(ei) is None);
                        assert(world.comp_at(ComponentKind::CurrentTurn, ei) == wprev.comp_at(
                            ComponentKind::CurrentTurn,
                            ei,
                        ));
                        assert(world.comp_at(ComponentKind::CardId, ei) == wprev.comp_at(
                            ComponentKind::CardId,
                            ei,
                        ));
                        assert(world.comp_at(ComponentKind::InDeck, ei) == wprev.comp_at(
                            ComponentKind::InDeck,
                            ei,
                        ));
                        assert(world.comp_at(ComponentKind::InHand, ei) == wprev.comp_at(
                            ComponentKind::InHand,
                            ei,
                        ));
                        assert(world.comp_at(ComponentKind::Player, ei) == wprev.comp_at(
                            ComponentKind::Player,
                            ei,
                        ));
                        assert(world.comp_at(ComponentKind::PlayerState, ei) == wprev.comp_at(
                            ComponentKind::PlayerState,
                            ei,
                        ));
                        assert(world.comp_at(ComponentKind::Faith, ei) == wprev.comp_at(
                            ComponentKind::Faith,
                            ei,
                        ));
                    } else {
                        assert(world.comp_at(ComponentKind::CardId, ei) == Some(
                            Component::CardId(card_id),
                        ));
                        assert(world.comp_at(ComponentKind::InDeck, ei) == Some(
                            Component::InDeck(InDeck(player)),
                        ));
                        assert(world.comp_at(ComponentKind::InHand, ei) is None);
                        assert(world.comp_at(ComponentKind::Player, ei) is None);
                        assert(world.comp_at(ComponentKind::PlayerState, ei) is None);
                        assert(world.comp_at(ComponentKind::Faith, ei) is None);
                        assert(world.comp_at(ComponentKind::CurrentTurn, ei) is None);
                    }
                }
            }
            di = di + 1;
        }
        let ghost wdeck = *world;
        let mut fi: usize = 0;
        while fi < faith.len()
            invariant
                old(world).wf(),
                w0 == *old(world),
                c0 == w0.spec_entity_counter() as int,
                c0 + deck@.len() + faith@.len() <= u32::MAX,
                wdeck.spec_entity_counter() == c0 + deck@.len(),
                fi <= faith@.len(),
                world.wf(),
                world.spec_entity_counter() == c0 + deck@.len() + fi,
                forall|j: int|
                    0 <= j < fi ==> {
                        let e = c0 + deck@.len() + j;
                        &&& world.card_ids().at(e) == Some(#[trigger] faith@[j])
                        &&& world.faiths().at(e) == Some(Faith(player))
                        &&& world.in_hands().at(e) is None
                        &&& world.in_decks().at(e) is None
                        &&& world.players().at(e) is None
                        &&& world.player_states().at(e) is None
                        &&& world.current_turns().at(e) is None
                    },
                forall|k: ComponentKind, i: int|
                    i < c0 + deck@.len() ==> #[trigger] world.comp_at(k, i) == wdeck.comp_at(k, i),
                world.resources_eq(wdeck),
                forall|p2: PlayerId| #[trigger] world.player_entity_ids(p2)
                    == wdeck.player_entity_ids(p2),
                forall|p2: PlayerId| #[trigger] world.in_hand_ids(p2) == wdeck.in_hand_ids(p2),
                world.occupied_hand_ids() == wdeck.occupied_hand_ids(),
                world.occupied_deck_ids().len() == wdeck.occupied_deck_ids().len(),
                world.faith_ids(player).len() == wdeck.faith_ids(player).len() + fi,
                world.faith_ids(player.spec_opp()) == wdeck.faith_ids(player.spec_opp()),
            decreases faith@.len() - fi,
        {
            let ghost wprev = *world;
            let card_id = faith[fi];
            let mut comps: Vec<Component> = Vec::new();
            comps.push(Component::CardId(card_id));
            comps.push(Component::Faith(Faith(player)));
            let ghost gcomps = comps@;
            let _e = world.spawn(comps);
            proof {
                let ei = _e@ as int;
                assert(gcomps[0] == Component::CardId(card_id));
                assert(gcomps[1] == Component::Faith(Faith(player)));
                assert(world.comp_at(ComponentKind::CardId, ei) == Some(
                    Component::CardId(card_id),
                ));
                assert(world.comp_at(ComponentKind::Faith, ei) == Some(
                    Component::Faith(Faith(player)),
                ));
                assert forall|k: ComponentKind|
                    k != ComponentKind::CardId && k != ComponentKind::Faith implies #[trigger] world.comp_at(
                    k,
                    ei,
                ) is None by {
                    assert(forall|j: int|
                        0 <= j < gcomps.len() ==> (#[trigger] gcomps[j]).kind() != k);
                }
                crate::system::lemma_game_view_after_card_spawn(
                    wprev,
                    *world,
                    card_id,
                    Component::Faith(Faith(player)),
                );
                assert forall|k: ComponentKind, i: int|
                    i < c0 + deck@.len() implies #[trigger] world.comp_at(k, i) == wdeck.comp_at(
                    k,
                    i,
                ) by {
                    assert(world.comp_at(k, i) == wprev.comp_at(k, i));
                }
                assert forall|j: int|
                    0 <= j < fi + 1 implies {
                        let ei = c0 + deck@.len() + j;
                        &&& world.card_ids().at(ei) == Some(#[trigger] faith@[j])
                        &&& world.faiths().at(ei) == Some(Faith(player))
                        &&& world.in_hands().at(ei) is None
                        &&& world.in_decks().at(ei) is None
                        &&& world.players().at(ei) is None
                        &&& world.player_states().at(ei) is None
                        &&& world.current_turns().at(ei) is None
                    } by {
                    let ei = c0 + deck@.len() + j;
                    if j < fi {
                        assert(wprev.card_ids().at(ei) == Some(faith@[j]));
                        assert(wprev.faiths().at(ei) == Some(Faith(player)));
                        assert(wprev.in_hands().at(ei) is None);
                        assert(wprev.in_decks().at(ei) is None);
                        assert(wprev.players().at(ei) is None);
                        assert(wprev.player_states().at(ei) is None);
                        assert(wprev.current_turns().at(ei) is None);
                        assert(world.comp_at(ComponentKind::CurrentTurn, ei) == wprev.comp_at(
                            ComponentKind::CurrentTurn,
                            ei,
                        ));
                        assert(world.comp_at(ComponentKind::CardId, ei) == wprev.comp_at(
                            ComponentKind::CardId,
                            ei,
                        ));
                        assert(world.comp_at(ComponentKind::Faith, ei) == wprev.comp_at(
                            ComponentKind::Faith,
                            ei,
                        ));
                        assert(world.comp_at(ComponentKind::InHand, ei) == wprev.comp_at(
                            ComponentKind::InHand,
                            ei,
                        ));
                        assert(world.comp_at(ComponentKind::InDeck, ei) == wprev.comp_at(
                            ComponentKind::InDeck,
                            ei,
                        ));
                        assert(world.comp_at(ComponentKind::Player, ei) == wprev.comp_at(
                            ComponentKind::Player,
                            ei,
                        ));
                        assert(world.comp_at(ComponentKind::PlayerState, ei) == wprev.comp_at(
                            ComponentKind::PlayerState,
                            ei,
                        ));
                    } else {
                        assert(world.comp_at(ComponentKind::CardId, ei) == Some(
                            Component::CardId(card_id),
                        ));
                        assert(world.comp_at(ComponentKind::Faith, ei) == Some(
                            Component::Faith(Faith(player)),
                        ));
                        assert(world.comp_at(ComponentKind::InHand, ei) is None);
                        assert(world.comp_at(ComponentKind::InDeck, ei) is None);
                        assert(world.comp_at(ComponentKind::Player, ei) is None);
                        assert(world.comp_at(ComponentKind::PlayerState, ei) is None);
                        assert(world.comp_at(ComponentKind::CurrentTurn, ei) is None);
                    }
                }
            }
            fi = fi + 1;
        }
        proof {
            assert forall|j: int|
                0 <= j < deck@.len() implies {
                    let e = c0 + j;
                    &&& world.card_ids().at(e) == Some(#[trigger] deck@[j])
                    &&& world.in_decks().at(e) == Some(InDeck(player))
                    &&& world.in_hands().at(e) is None
                    &&& world.players().at(e) is None
                    &&& world.player_states().at(e) is None
                    &&& world.current_turns().at(e) is None
                    &&& world.faiths().at(e) is None
                } by {
                let ei = c0 + j;
                assert(world.comp_at(ComponentKind::CardId, ei) == wdeck.comp_at(
                    ComponentKind::CardId,
                    ei,
                ));
                assert(world.comp_at(ComponentKind::InDeck, ei) == wdeck.comp_at(
                    ComponentKind::InDeck,
                    ei,
                ));
                assert(world.comp_at(ComponentKind::InHand, ei) == wdeck.comp_at(
                    ComponentKind::InHand,
                    ei,
                ));
                assert(world.comp_at(ComponentKind::Player, ei) == wdeck.comp_at(
                    ComponentKind::Player,
                    ei,
                ));
                assert(world.comp_at(ComponentKind::PlayerState, ei) == wdeck.comp_at(
                    ComponentKind::PlayerState,
                    ei,
                ));
                assert(world.comp_at(ComponentKind::CurrentTurn, ei) == wdeck.comp_at(
                    ComponentKind::CurrentTurn,
                    ei,
                ));
                assert(world.comp_at(ComponentKind::Faith, ei) == wdeck.comp_at(
                    ComponentKind::Faith,
                    ei,
                ));
            }
            assert forall|k: ComponentKind, i: int|
                i < c0 implies #[trigger] world.comp_at(k, i) == w0.comp_at(k, i) by {
                assert(world.comp_at(k, i) == wdeck.comp_at(k, i));
            }
        }
        PlayerState { deck: out }
    }
}

} // verus!
