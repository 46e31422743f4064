//! Actions: the closed set of atomic, replayable mutations that are the
//! only legal way to change game state.
//!
//! Every mutation funnels through [`Action::perform`], and each action
//! appends a line to the shared debug log, so all changes are auditable.

use vstd::prelude::*;

use crate::card::{CardDef, CardId, Faith, InDeck, InHand, Registry, SkillDef};
use crate::player::{CurrentTurn, PlayerId, PlayerState};
use crate::state::{GameState, TurnTimer};
use crate::store::{ids_where, Entity};
use crate::system::{Component, ComponentKind, Resource, ResourceKind, System};
use crate::utils::{push_decimal, spec_decimal, Timer};

verus! {

/// A named, self-contained request to mutate game state.
///
/// `pre` says when the action may run and `post` says exactly what it
/// did; `perform` is the single entry point for every mutation.
pub trait Action: Sized {
    type Output;

    /// When the action may be performed.
    spec fn pre(self, reg: Registry, w: System) -> bool;

    /// The exact effect of the action: relation between the world before,
    /// the world after, and the output.
    spec fn post(self, reg: Registry, pre: System, post: System, out: Self::Output) -> bool;

    fn perform(&self, world: &mut System, registry: &Registry) -> (out: Self::Output)
        requires
            (*self).pre(*registry, *old(world)),
        ensures
            (*self).post(*registry, *old(world), *final(world), out),
    ;
}

/// Increments the round counter.
pub struct BumpRound;

impl Action for BumpRound {
    type Output = ();

    open spec fn pre(self, reg: Registry, w: System) -> bool {
        &&& w.spec_game() is Some
        &&& w.spec_game().unwrap().round < u32::MAX
    }

    /// Strict monotonicity: the round after is the round before plus one,
    /// and nothing else changes but the log.
    open spec fn post(self, reg: Registry, pre: System, post: System, out: ()) -> bool {
        &&& post.spec_game() == Some(
            GameState {
                round: (pre.spec_game().unwrap().round + 1) as u32,
                finished: pre.spec_game().unwrap().finished,
            },
        )
        &&& post.spec_timer() == pre.spec_timer()
        &&& post.comps_eq(pre)
        &&& post.spec_entity_counter() == pre.spec_entity_counter()
        &&& pre.log_grew(post)
        &&& pre.game_wf() ==> post.game_wf()
        &&& forall|p: PlayerId| #[trigger] post.in_hand_ids(p) == pre.in_hand_ids(p)
        &&& forall|p: PlayerId| #[trigger] post.faith_ids(p) == pre.faith_ids(p)
        &&& forall|p: PlayerId| #[trigger] post.deck_seq(p) == pre.deck_seq(p)
        &&& forall|p: PlayerId| #[trigger] post.player_entity_ids(p) == pre.player_entity_ids(p)
        &&& forall|i: int| #[trigger] post.in_hands().at(i) == pre.in_hands().at(i)
        &&& forall|i: int| #[trigger] post.current_turns().at(i) == pre.current_turns().at(i)
    }

    fn perform(&self, world: &mut System, registry: &Registry) -> (out: Self::Output) {
        let g = world.game().unwrap();
        world.add_resource(Resource::Game(GameState { round: g.round + 1, finished: g.finished }));
        let ghost wm = *world;
        world.push_log(String::from_str("The round counter advanced."));
        proof {
            let w0 = *old(world);
            let w1 = *world;
            assert(wm.res_at(ResourceKind::Log) == w0.res_at(ResourceKind::Log));
            assert(wm.res_at(ResourceKind::Timer) == w0.res_at(ResourceKind::Timer));
            assert forall|k: crate::system::ComponentKind, i: int| #[trigger] w1.comp_at(k, i)
                == w0.comp_at(k, i) by {
                assert(w1.comp_at(k, i) == wm.comp_at(k, i));
                assert(wm.comp_at(k, i) == w0.comp_at(k, i));
            }
            crate::system::lemma_same_comps_same_game_view(w0, w1);
            assert forall|i: int| #[trigger] w1.in_hands().at(i) == w0.in_hands().at(i) by {
                assert(w1.comp_at(ComponentKind::InHand, i) == w0.comp_at(ComponentKind::InHand, i));
            }
            assert forall|i: int| #[trigger] w1.current_turns().at(i) == w0.current_turns().at(
                i,
            ) by {
                assert(w1.comp_at(ComponentKind::CurrentTurn, i) == w0.comp_at(
                    ComponentKind::CurrentTurn,
                    i,
                ));
            }
        }
    }
}

/// Marks the game as finished.
pub struct GameFinished;

impl Action for GameFinished {
    type Output = ();

    open spec fn pre(self, reg: Registry, w: System) -> bool {
        w.spec_game() is Some
    }

    open spec fn post(self, reg: Registry, pre: System, post: System, out: ()) -> bool {
        &&& post.spec_game() == Some(
            GameState { round: pre.spec_game().unwrap().round, finished: true },
        )
        &&& post.spec_timer() == pre.spec_timer()
        &&& post.comps_eq(pre)
        &&& post.spec_entity_counter() == pre.spec_entity_counter()
        &&& pre.log_grew(post)
        &&& pre.game_wf() ==> post.game_wf()
        &&& forall|p: PlayerId| #[trigger] post.in_hand_ids(p) == pre.in_hand_ids(p)
        &&& forall|p: PlayerId| #[trigger] post.faith_ids(p) == pre.faith_ids(p)
        &&& forall|p: PlayerId| #[trigger] post.deck_seq(p) == pre.deck_seq(p)
        &&& forall|p: PlayerId| #[trigger] post.player_entity_ids(p) == pre.player_entity_ids(p)
        &&& forall|i: int| #[trigger] post.in_hands().at(i) == pre.in_hands().at(i)
        &&& forall|i: int| #[trigger] post.current_turns().at(i) == pre.current_turns().at(i)
    }

    fn perform(&self, world: &mut System, registry: &Registry) -> (out: Self::Output) {
        let g = world.game().unwrap();
        world.add_resource(Resource::Game(GameState { round: g.round, finished: true }));
        let ghost wm = *world;
        world.push_log(String::from_str("The game is over."));
        proof {
            let w0 = *old(world);
            let w1 = *world;
            assert(wm.res_at(ResourceKind::Log) == w0.res_at(ResourceKind::Log));
            assert(wm.res_at(ResourceKind::Timer) == w0.res_at(ResourceKind::Timer));
            assert forall|k: crate::system::ComponentKind, i: int| #[trigger] w1.comp_at(k, i)
                == w0.comp_at(k, i) by {
                assert(w1.comp_at(k, i) == wm.comp_at(k, i));
                assert(wm.comp_at(k, i) == w0.comp_at(k, i));
            }
            crate::system::lemma_same_comps_same_game_view(w0, w1);
            assert forall|i: int| #[trigger] w1.in_hands().at(i) == w0.in_hands().at(i) by {
                assert(w1.comp_at(ComponentKind::InHand, i) == w0.comp_at(ComponentKind::InHand, i));
            }
            assert forall|i: int| #[trigger] w1.current_turns().at(i) == w0.current_turns().at(
                i,
            ) by {
                assert(w1.comp_at(ComponentKind::CurrentTurn, i) == w0.comp_at(
                    ComponentKind::CurrentTurn,
                    i,
                ));
            }
        }
    }
}


/// The fixed length of a turn, in time units.
pub const TURN_LIMIT: u64 = 30;

/// Tags the player's entity with the "current turn" marker and starts the
/// turn timer.
pub struct StartTurn {
    pub player: PlayerId,
    /// The current time on the caller's monotonic clock.
    pub now: u64,
}

impl Action for StartTurn {
    type Output = ();

    open spec fn pre(self, reg: Registry, w: System) -> bool {
        w.game_wf()
    }

    open spec fn post(self, reg: Registry, pre: System, post: System, out: ()) -> bool {
        &&& post.current_turns().at(pre.player_entity(self.player)) == Some(CurrentTurn)
        &&& post.comps_eq_except(pre, ComponentKind::CurrentTurn, pre.player_entity(self.player))
        &&& post.spec_timer() is Some
        &&& post.spec_timer().unwrap().0.spec_remaining(self.now) == TURN_LIMIT
        &&& post.spec_timer().unwrap().0.spec_duration() == TURN_LIMIT
        &&& post.spec_game() == pre.spec_game()
        &&& post.spec_entity_counter() == pre.spec_entity_counter()
        &&& pre.log_grew(post)
        &&& post.game_wf()
        &&& forall|p: PlayerId| #[trigger] post.in_hand_ids(p) == pre.in_hand_ids(p)
        &&& forall|p: PlayerId| #[trigger] post.faith_ids(p) == pre.faith_ids(p)
        &&& forall|p: PlayerId| #[trigger] post.deck_seq(p) == pre.deck_seq(p)
        &&& forall|p: PlayerId| #[trigger] post.player_entity_ids(p) == pre.player_entity_ids(p)
        &&& forall|i: int| #[trigger] post.in_hands().at(i) == pre.in_hands().at(i)
        &&& forall|i: int|
            i != pre.player_entity(self.player) ==> #[trigger] post.current_turns().at(i)
                == pre.current_turns().at(i)
        &&& post.occupied_hand_ids() == pre.occupied_hand_ids()
        &&& post.occupied_deck_ids() == pre.occupied_deck_ids()
    }

    fn perform(&self, world: &mut System, registry: &Registry) -> (out: Self::Output) {
        let pe = world.find_player_entity(self.player).unwrap();
        let _ = world.add_component(pe, Component::CurrentTurn(CurrentTurn));
        let ghost wa = *world;
        world.add_resource(Resource::Timer(TurnTimer(Timer::new(TURN_LIMIT, self.now))));
        let ghost wb = *world;
        world.push_log(String::from_str("A turn started."));
        proof {
            let w0 = *old(world);
            let w1 = *world;
            let pe_i = w0.player_entity(self.player);
            assert(wb.res_at(ResourceKind::Game) == wa.res_at(ResourceKind::Game));
            assert(wb.res_at(ResourceKind::Log) == wa.res_at(ResourceKind::Log));
            assert(w1.res_at(ResourceKind::Timer) == wb.res_at(ResourceKind::Timer));
            assert forall|k: ComponentKind, i: int|
                !(k == ComponentKind::CurrentTurn && i == pe_i) implies #[trigger] w1.comp_at(k, i)
                == w0.comp_at(k, i) by {
                assert(w1.comp_at(k, i) == wb.comp_at(k, i));
                assert(wb.comp_at(k, i) == wa.comp_at(k, i));
                assert(wa.comp_at(k, i) == w0.comp_at(k, i));
            }
            assert(w1.comp_at(ComponentKind::CurrentTurn, pe_i) == wa.comp_at(
                ComponentKind::CurrentTurn,
                pe_i,
            ));
            crate::system::lemma_game_view_comp_change(w0, w1, ComponentKind::CurrentTurn, pe_i);
            assert forall|i: int| #[trigger] w1.in_hands().at(i) == w0.in_hands().at(i) by {
                assert(w1.comp_at(ComponentKind::InHand, i) == w0.comp_at(ComponentKind::InHand, i));
            }
            assert forall|i: int|
                i != pe_i implies #[trigger] w1.current_turns().at(i) == w0.current_turns().at(
                i,
            ) by {
                assert(w1.comp_at(ComponentKind::CurrentTurn, i) == w0.comp_at(
                    ComponentKind::CurrentTurn,
                    i,
                ));
            }
        }
    }
}

/// Removes the "current turn" marker from the player's entity and removes
/// the turn-timer resource.
pub struct EndTurn {
    pub player: PlayerId,
}

impl Action for EndTurn {
    type Output = ();

    open spec fn pre(self, reg: Registry, w: System) -> bool {
        w.game_wf()
    }

    open spec fn post(self, reg: Registry, pre: System, post: System, out: ()) -> bool {
        &&& post.current_turns().at(pre.player_entity(self.player)) is None
        &&& post.comps_eq_except(pre, ComponentKind::CurrentTurn, pre.player_entity(self.player))
        &&& post.spec_timer() is None
        &&& post.spec_game() == pre.spec_game()
        &&& post.spec_entity_counter() == pre.spec_entity_counter()
        &&& pre.log_grew(post)
        &&& post.game_wf()
        &&& forall|p: PlayerId| #[trigger] post.in_hand_ids(p) == pre.in_hand_ids(p)
        &&& forall|p: PlayerId| #[trigger] post.faith_ids(p) == pre.faith_ids(p)
        &&& forall|p: PlayerId| #[trigger] post.deck_seq(p) == pre.deck_seq(p)
        &&& forall|p: PlayerId| #[trigger] post.player_entity_ids(p) == pre.player_entity_ids(p)
        &&& forall|i: int| #[trigger] post.in_hands().at(i) == pre.in_hands().at(i)
        &&& forall|i: int|
            i != pre.player_entity(self.player) ==> #[trigger] post.current_turns().at(i)
                == pre.current_turns().at(i)
        &&& post.occupied_hand_ids() == pre.occupied_hand_ids()
        &&& post.occupied_deck_ids() == pre.occupied_deck_ids()
    }

    fn perform(&self, world: &mut System, registry: &Registry) -> (out: Self::Output) {
        let pe = world.find_player_entity(self.player).unwrap();
        let _ = world.remove_component(pe, ComponentKind::CurrentTurn);
        let ghost wa = *world;
        let _ = world.remove_resource(ResourceKind::Timer);
        let ghost wb = *world;
        world.push_log(String::from_str("A turn ended."));
        proof {
            let w0 = *old(world);
            let w1 = *world;
            let pe_i = w0.player_entity(self.player);
            assert(wb.res_at(ResourceKind::Game) == wa.res_at(ResourceKind::Game));
            assert(wb.res_at(ResourceKind::Log) == wa.res_at(ResourceKind::Log));
            assert(w1.res_at(ResourceKind::Timer) == wb.res_at(ResourceKind::Timer));
            assert forall|k: ComponentKind, i: int|
                !(k == ComponentKind::CurrentTurn && i == pe_i) implies #[trigger] w1.comp_at(k, i)
                == w0.comp_at(k, i) by {
                assert(w1.comp_at(k, i) == wb.comp_at(k, i));
                assert(wb.comp_at(k, i) == wa.comp_at(k, i));
                assert(wa.comp_at(k, i) == w0.comp_at(k, i));
            }
            assert(w1.comp_at(ComponentKind::CurrentTurn, pe_i) == wa.comp_at(
                ComponentKind::CurrentTurn,
                pe_i,
            ));
            crate::system::lemma_game_view_comp_change(w0, w1, ComponentKind::CurrentTurn, pe_i);
            assert forall|i: int| #[trigger] w1.in_hands().at(i) == w0.in_hands().at(i) by {
                assert(w1.comp_at(ComponentKind::InHand, i) == w0.comp_at(ComponentKind::InHand, i));
            }
            assert forall|i: int|
                i != pe_i implies #[trigger] w1.current_turns().at(i) == w0.current_turns().at(
                i,
            ) by {
                assert(w1.comp_at(ComponentKind::CurrentTurn, i) == w0.comp_at(
                    ComponentKind::CurrentTurn,
                    i,
                ));
            }
        }
    }
}

/// Removes the `InHand` marker from the card entity; the entity itself is
/// kept. Playing a card that is not in a hand is a harmless no-op, not a
/// failure.
pub struct PlayCard {
    pub player: PlayerId,
    pub card: Entity,
}

impl Action for PlayCard {
    type Output = ();

    open spec fn pre(self, reg: Registry, w: System) -> bool {
        w.wf()
    }

    open spec fn post(self, reg: Registry, pre: System, post: System, out: ()) -> bool {
        &&& post.in_hands().at(self.card@ as int) is None
        &&& post.comps_eq_except(pre, ComponentKind::InHand, self.card@ as int)
        &&& post.spec_game() == pre.spec_game()
        &&& post.spec_timer() == pre.spec_timer()
        &&& post.spec_entity_counter() == pre.spec_entity_counter()
        &&& pre.log_grew(post)
        &&& post.spec_log() matches Some(l) && l.entries@.last()@
            == "Played the card held by entity "@ + spec_decimal(self.card@ as nat) + "."@
        &&& post.wf()
        &&& pre.game_wf() ==> post.game_wf()
        &&& forall|p: PlayerId| #[trigger] post.hand_count(p) == pre.hand_count(p) - (
        if pre.in_hands().at(self.card@ as int) == Some(InHand(p)) {
            1int
        } else {
            0int
        })
        &&& forall|p: PlayerId| #[trigger] post.faith_ids(p) == pre.faith_ids(p)
        &&& forall|p: PlayerId| #[trigger] post.deck_seq(p) == pre.deck_seq(p)
        &&& forall|p: PlayerId| #[trigger] post.player_entity_ids(p) == pre.player_entity_ids(p)
        &&& forall|i: int| #[trigger] post.current_turns().at(i) == pre.current_turns().at(i)
        &&& post.occupied_deck_ids() == pre.occupied_deck_ids()
        &&& post.occupied_hand_ids().len() == pre.occupied_hand_ids().len() - (
        if pre.in_hands().at(self.card@ as int) is Some {
            1int
        } else {
            0int
        })
    }

    fn perform(&self, world: &mut System, registry: &Registry) -> (out: Self::Output) {
        let _ = world.remove_component(self.card, ComponentKind::InHand);
        let ghost wa = *world;
        let mut line = String::from_str("Played the card held by entity ");
        push_decimal(&mut line, self.card.id() as u64);
        line.append(".");
        proof {
            assert(line@ =~= "Played the card held by entity "@ + spec_decimal(
                self.card@ as nat,
            ) + "."@);
        }
        world.push_log(line);
        proof {
            let w0 = *old(world);
            let w1 = *world;
            let ci = self.card@ as int;
            let n = w0.spec_entity_counter() as int;
            assert forall|k: ComponentKind, i: int|
                !(k == ComponentKind::InHand && i == ci) implies #[trigger] w1.comp_at(k, i)
                == w0.comp_at(k, i) by {
                assert(w1.comp_at(k, i) == wa.comp_at(k, i));
                assert(wa.comp_at(k, i) == w0.comp_at(k, i));
            }
            assert(w1.comp_at(ComponentKind::InHand, ci) == wa.comp_at(ComponentKind::InHand, ci));
            crate::system::lemma_game_view_comp_change(w0, w1, ComponentKind::InHand, ci);
            assert forall|i: int| #[trigger] w1.current_turns().at(i) == w0.current_turns().at(
                i,
            ) by {
                assert(w1.comp_at(ComponentKind::CurrentTurn, i) == w0.comp_at(
                    ComponentKind::CurrentTurn,
                    i,
                ));
            }
            assert forall|k: ComponentKind, i: int|
                i >= w1.spec_entity_counter() implies #[trigger] w1.comp_at(k, i) is None by {
                if !(k == ComponentKind::InHand && i == ci) {
                    assert(w1.comp_at(k, i) == w0.comp_at(k, i));
                    assert(w0.comp_at(k, i) is None);
                }
            }
            assert forall|i: int| i != ci implies #[trigger] w1.in_hands().at(i) == w0.in_hands().at(
                i,
            ) by {
                assert(w1.comp_at(ComponentKind::InHand, i) == w0.comp_at(ComponentKind::InHand, i));
            }
            assert forall|p: PlayerId| #[trigger] w1.hand_count(p) == w0.hand_count(p) - (
                if w0.in_hands().at(ci) == Some(InHand(p)) {
                    1int
                } else {
                    0int
                }) by {
                crate::store::lemma_ids_where_update(
                    |i: int| w0.in_hands().at(i) == Some(InHand(p)),
                    |i: int| w1.in_hands().at(i) == Some(InHand(p)),
                    ci,
                    n,
                );
                if !(0 <= ci < n) {
                    assert(w0.in_hands().at(ci) is None);
                }
            }
            assert(w1.occupied_hand_ids().len() == w0.occupied_hand_ids().len() - (
                if w0.in_hands().at(ci) is Some {
                    1int
                } else {
                    0int
                })) by {
                crate::store::lemma_ids_where_update(
                    |i: int| w0.in_hands().at(i) is Some,
                    |i: int| w1.in_hands().at(i) is Some,
                    ci,
                    n,
                );
                if !(0 <= ci < n) {
                    assert(w0.in_hands().at(ci) is None);
                }
            }
            if w0.game_wf() {
                assert forall|p: PlayerId, j: int|
                    0 <= j < w1.deck_seq(p).len() implies w1.deck_entry_ok(
                    p,
                    (#[trigger] w1.deck_seq(p)[j])@ as int,
                ) by {
                    let ei = (w0.deck_seq(p)[j])@ as int;
                    assert(w0.deck_entry_ok(p, ei));
                    if ei != ci {
                        assert(w1.comp_at(ComponentKind::InHand, ei) == w0.comp_at(
                            ComponentKind::InHand,
                            ei,
                        ));
                    }
                    assert(w1.comp_at(ComponentKind::InDeck, ei) == w0.comp_at(
                        ComponentKind::InDeck,
                        ei,
                    ));
                    assert(w1.comp_at(ComponentKind::CardId, ei) == w0.comp_at(
                        ComponentKind::CardId,
                        ei,
                    ));
                    assert(w1.comp_at(ComponentKind::Player, ei) == w0.comp_at(
                        ComponentKind::Player,
                        ei,
                    ));
                    assert(w1.comp_at(ComponentKind::PlayerState, ei) == w0.comp_at(
                        ComponentKind::PlayerState,
                        ei,
                    ));
                }
                assert forall|i: int| #[trigger]
                    w1.in_hands().at(i) is Some implies w1.card_ids().at(i) is Some by {
                    assert(w0.in_hands().at(i) is Some);
                    assert(w1.comp_at(ComponentKind::CardId, i) == w0.comp_at(
                        ComponentKind::CardId,
                        i,
                    ));
                }
                assert forall|p1: PlayerId, j1: int, p2: PlayerId, j2: int|
                    0 <= j1 < w1.deck_seq(p1).len() && 0 <= j2 < w1.deck_seq(p2).len() && !(p1
                        == p2 && j1 == j2) implies (#[trigger] w1.deck_seq(p1)[j1])@ != (
                    #[trigger] w1.deck_seq(p2)[j2])@ by {
                    assert(w1.deck_seq(p1) == w0.deck_seq(p1));
                    assert(w1.deck_seq(p2) == w0.deck_seq(p2));
                    assert((w0.deck_seq(p1)[j1])@ != (w0.deck_seq(p2)[j2])@);
                }
                let pe0 = w0.player_entity(PlayerId::Player0);
                let pe1 = w0.player_entity(PlayerId::Player1);
                assert(w1.player_entity(PlayerId::Player0) == pe0);
                assert(w1.player_entity(PlayerId::Player1) == pe1);
                assert(w1.comp_at(ComponentKind::PlayerState, pe0) == w0.comp_at(
                    ComponentKind::PlayerState,
                    pe0,
                ));
                assert(w1.comp_at(ComponentKind::PlayerState, pe1) == w0.comp_at(
                    ComponentKind::PlayerState,
                    pe1,
                ));
                assert(w1.game_wf());
            }
        }
    }
}


/// Moves up to `count` cards from the top of the player's deck into the
/// player's hand, stopping early when the deck runs out; drawing from an
/// empty deck yields zero cards, never an error.
pub struct DrawCards {
    pub player: PlayerId,
    pub count: usize,
}

impl DrawCards {
    /// How many cards the draw actually yields.
    pub open spec fn drawn(self, pre: System) -> int {
        if self.count <= pre.deck_count(self.player) {
            self.count as int
        } else {
            pre.deck_count(self.player)
        }
    }
}

impl Action for DrawCards {
    type Output = Vec<Entity>;

    open spec fn pre(self, reg: Registry, w: System) -> bool {
        w.game_wf()
    }

    /// Cards only move, never vanish: exactly `drawn` cards leave the top
    /// of the deck, in order, and appear in the hand; the hand grows and
    /// the deck shrinks by the same amount, and no other zone changes.
    open spec fn post(self, reg: Registry, pre: System, post: System, out: Vec<Entity>) -> bool {
        let k = self.drawn(pre);
        let dc = pre.deck_count(self.player);
        &&& out@.len() == k
        &&& forall|i: int| 0 <= i < k ==> #[trigger] out@[i] == pre.deck_seq(self.player)[dc - 1
            - i]
        &&& post.deck_seq(self.player) == pre.deck_seq(self.player).take(dc - k)
        &&& post.deck_seq(self.player.spec_opp()) == pre.deck_seq(self.player.spec_opp())
        &&& forall|i: int|
            0 <= i < k ==> post.in_hands().at((#[trigger] out@[i])@ as int) == Some(
                InHand(self.player),
            ) && post.in_decks().at(out@[i]@ as int) is None
        &&& post.hand_count(self.player) == pre.hand_count(self.player) + k
        &&& post.hand_count(self.player) + post.deck_count(self.player) == pre.hand_count(
            self.player,
        ) + pre.deck_count(self.player)
        &&& post.hand_count(self.player.spec_opp()) == pre.hand_count(self.player.spec_opp())
        &&& post.occupied_hand_ids().len() == pre.occupied_hand_ids().len() + k
        &&& post.occupied_deck_ids().len() == pre.occupied_deck_ids().len() - k
        &&& forall|p: PlayerId| #[trigger] post.faith_ids(p) == pre.faith_ids(p)
        &&& forall|p: PlayerId| #[trigger] post.player_entity_ids(p) == pre.player_entity_ids(p)
        &&& forall|i: int| #[trigger] post.card_ids().at(i) == pre.card_ids().at(i)
        &&& forall|i: int| #[trigger] post.current_turns().at(i) == pre.current_turns().at(i)
        &&& forall|i: int| #[trigger]
            pre.in_hands().at(i) is Some ==> post.in_hands().at(i) == pre.in_hands().at(i)
        &&& forall|i: int| #[trigger]
            pre.in_decks().at(i) is None ==> post.in_decks().at(i) is None
        &&& post.spec_game() == pre.spec_game()
        &&& post.spec_timer() == pre.spec_timer()
        &&& post.spec_entity_counter() == pre.spec_entity_counter()
        &&& pre.log_grew(post)
        &&& post.spec_log() matches Some(l) && l.entries@.last()@ == "Drew "@ + spec_decimal(
            k as nat,
        ) + " cards."@
        &&& post.game_wf()
    }

    fn perform(&self, world: &mut System, registry: &Registry) -> (out: Self::Output) {
        let ghost w0 = *world;
        let ghost p = self.player;
        let ghost dc = w0.deck_count(p);
        let pe = world.find_player_entity(self.player).unwrap();
        let ghost pe_i = pe@ as int;

        // Phase one: shorten the deck inside the player state.
        let mut ps = world.take_player_state(pe).unwrap();
        let ghost wtake = *world;
        let ghost orig_deck = ps.deck@;
        proof {
            assert(orig_deck == w0.deck_seq(p));
        }
        let mut popped: Vec<Entity> = Vec::new();
        let mut n: usize = 0;
        while n < self.count && ps.deck.len() > 0
            invariant
                n <= self.count,
                popped@.len() == n,
                popped@.len() <= orig_deck.len(),
                ps.deck@ == orig_deck.take(orig_deck.len() - popped@.len()),
                forall|j: int|
                    0 <= j < popped@.len() ==> #[trigger] popped@[j] == orig_deck[orig_deck.len()
                        - 1 - j],
            decreases self.count - n,
        {
            let card = ps.deck.pop().unwrap();
            popped.push(card);
            proof {
                assert(ps.deck@ =~= orig_deck.take(orig_deck.len() - popped@.len()));
            }
            n = n + 1;
        }
        proof {
            assert(popped@.len() == self.drawn(w0));
        }
        let ghost k = popped@.len() as int;
        world.put_player_state(pe, ps);
        let ghost wmid = *world;
        proof {
            assert forall|k2: ComponentKind, i: int|
                !(k2 == ComponentKind::PlayerState && i == pe_i) implies #[trigger] wmid.comp_at(
                k2,
                i,
            ) == w0.comp_at(k2, i) by {
                assert(wmid.comp_at(k2, i) == wtake.comp_at(k2, i));
                assert(wtake.comp_at(k2, i) == w0.comp_at(k2, i));
            }
            self.lemma_after_pop(w0, wmid, popped@);
        }

        // Phase two: re-tag each popped card from deck to hand.
        let mut drawn_cards: Vec<Entity> = Vec::new();
        let mut m: usize = 0;
        while m < popped.len()
            invariant
                m <= popped@.len(),
                drawn_cards@ == popped@.subrange(0, m as int),
                self.popped_ok(w0, popped@),
                wmid.deck_seq(self.player) == w0.deck_seq(self.player).take(
                    w0.deck_count(self.player) - popped@.len(),
                ),
                wmid.deck_seq(self.player.spec_opp()) == w0.deck_seq(self.player.spec_opp()),
                self.phase_two_inv(w0, wmid, *world, popped@, m as int),
            decreases popped@.len() - m,
        {
            let card = popped[m];
            let ghost ci = card@ as int;
            let ghost wstep = *world;
            proof {
                assert(world.in_decks().at(ci) == Some(InDeck(self.player)));
                assert(ci < world.spec_entity_counter() as int) by {
                    if ci >= world.spec_entity_counter() {
                        assert(world.comp_at(ComponentKind::InDeck, ci) is None);
                    }
                }
            }
            let _ = world.remove_component(card, ComponentKind::InDeck);
            let ghost wa = *world;
            proof {
                assert(wa.in_hands().at(ci) is None) by {
                    assert(wa.comp_at(ComponentKind::InHand, ci) == wstep.comp_at(
                        ComponentKind::InHand,
                        ci,
                    ));
                }
            }
            let radd = world.add_component(card, Component::InHand(InHand(self.player)));
            drawn_cards.push(card);
            proof {
                assert(radd is Ok);
                assert(world.in_hands().at(ci) == Some(InHand(self.player))) by {
                    assert(world.comp_at(ComponentKind::InHand, ci) == Some(
                        Component::InHand(InHand(self.player)),
                    ));
                }
                assert(wa.comps_eq_except(wstep, ComponentKind::InDeck, ci)) by {
                    assert forall|k2: ComponentKind, i: int|
                        !(k2 == ComponentKind::InDeck && i == ci) implies #[trigger] wa.comp_at(
                        k2,
                        i,
                    ) == wstep.comp_at(k2, i) by {}
                }
                assert(wa.in_decks().at(ci) is None) by {
                    assert(wa.comp_at(ComponentKind::InDeck, ci) is None);
                }
                self.lemma_phase_two_step(w0, wmid, wstep, wa, *world, popped@, m as int);
            }
            m = m + 1;
        }
        let ghost wtagged = *world;
        let mut line = String::from_str("Drew ");
        push_decimal(&mut line, drawn_cards.len() as u64);
        line.append(" cards.");
        proof {
            assert(line@ =~= "Drew "@ + spec_decimal(k as nat) + " cards."@);
        }
        world.push_log(line);
        proof {
            let w1 = *world;
            assert(wtagged.res_at(ResourceKind::Game) == w1.res_at(ResourceKind::Game));
            crate::system::lemma_same_comps_same_game_view(wtagged, w1);
            assert forall|i: int| #[trigger] w1.in_hands().at(i) == wtagged.in_hands().at(i) by {
                assert(w1.comp_at(ComponentKind::InHand, i) == wtagged.comp_at(
                    ComponentKind::InHand,
                    i,
                ));
            }
            assert forall|i: int| #[trigger] w1.in_decks().at(i) == wtagged.in_decks().at(i) by {
                assert(w1.comp_at(ComponentKind::InDeck, i) == wtagged.comp_at(
                    ComponentKind::InDeck,
                    i,
                ));
            }
            assert forall|i: int| #[trigger] w1.card_ids().at(i) == wtagged.card_ids().at(i) by {
                assert(w1.comp_at(ComponentKind::CardId, i) == wtagged.comp_at(
                    ComponentKind::CardId,
                    i,
                ));
            }
            assert forall|i: int| #[trigger] w1.current_turns().at(i) == wtagged.current_turns().at(
                i,
            ) by {
                assert(w1.comp_at(ComponentKind::CurrentTurn, i) == wtagged.comp_at(
                    ComponentKind::CurrentTurn,
                    i,
                ));
            }
            assert(drawn_cards@ =~= popped@);
            assert(w1.deck_seq(p) == w0.deck_seq(p).take(dc - k));
            assert(w0.log_grew(w1));
            assert(w1.game_wf());
        }
        drawn_cards
    }
}

impl DrawCards {
    /// The popped cards are exactly the top `popped.len()` cards of the
    /// pre-state deck, top first.
    pub open spec fn popped_ok(self, w0: System, popped: Seq<Entity>) -> bool {
        let p = self.player;
        let dc = w0.deck_count(p);
        &&& w0.game_wf()
        &&& popped.len() <= dc
        &&& forall|j: int|
            0 <= j < popped.len() ==> #[trigger] popped[j] == w0.deck_seq(p)[dc - 1 - j]
    }

    /// Invariant while the popped cards are re-tagged one by one: the
    /// first `m` have moved to the hand, the rest still carry their deck
    /// tag, and every other view of the world is unchanged.
    pub open spec fn phase_two_inv(
        self,
        w0: System,
        wmid: System,
        w: System,
        popped: Seq<Entity>,
        m: int,
    ) -> bool {
        let p = self.player;
        let k = popped.len() as int;
        &&& 0 <= m <= k
        &&& w.wf()
        &&& w.game_wf()
        &&& w.spec_entity_counter() == w0.spec_entity_counter()
        &&& w.spec_game() == w0.spec_game()
        &&& w.spec_timer() == w0.spec_timer()
        &&& w.spec_log() == w0.spec_log()
        &&& forall|p2: PlayerId| #[trigger] w.player_entity_ids(p2) == w0.player_entity_ids(p2)
        &&& forall|p2: PlayerId| #[trigger] w.deck_seq(p2) == wmid.deck_seq(p2)
        &&& forall|p2: PlayerId| #[trigger] w.faith_ids(p2) == w0.faith_ids(p2)
        &&& forall|i: int| #[trigger] w.card_ids().at(i) == w0.card_ids().at(i)
        &&& forall|i: int| #[trigger] w.current_turns().at(i) == w0.current_turns().at(i)
        &&& forall|i: int| #[trigger] w.players().at(i) == w0.players().at(i)
        &&& forall|i: int| #[trigger] w.player_states().at(i) == wmid.player_states().at(i)
        &&& forall|j: int|
            0 <= j < m ==> w.in_hands().at((#[trigger] popped[j])@ as int) == Some(InHand(p))
                && w.in_decks().at(popped[j]@ as int) is None
        &&& forall|j: int|
            m <= j < k ==> w.in_hands().at((#[trigger] popped[j])@ as int) is None
                && w.in_decks().at(popped[j]@ as int) == Some(InDeck(p)) && w.card_ids().at(
                popped[j]@ as int,
            ) is Some
        &&& forall|i: int| #[trigger]
            w0.in_hands().at(i) is Some ==> w.in_hands().at(i) == w0.in_hands().at(i)
        &&& forall|i: int| #[trigger] w0.in_decks().at(i) is None ==> w.in_decks().at(i) is None
        &&& w.hand_count(p) == w0.hand_count(p) + m
        &&& w.hand_count(p.spec_opp()) == w0.hand_count(p.spec_opp())
        &&& w.occupied_hand_ids().len() == w0.occupied_hand_ids().len() + m
        &&& w.occupied_deck_ids().len() == w0.occupied_deck_ids().len() - m
    }

    /// Distinctness facts about the popped cards, all consequences of
    /// deck soundness in the pre-state.
    pub proof fn lemma_popped_distinct(self, w0: System, popped: Seq<Entity>)
        requires
            self.popped_ok(w0, popped),
        ensures
            forall|j: int|
                0 <= j < popped.len() ==> w0.deck_entry_ok(
                    self.player,
                    (#[trigger] popped[j])@ as int,
                ),
            forall|j: int|
                0 <= j < popped.len() ==> 0 <= (#[trigger] popped[j])@
                    < w0.spec_entity_counter(),
            forall|j1: int, j2: int|
                0 <= j1 < j2 < popped.len() ==> (#[trigger] popped[j1])@ != (
                #[trigger] popped[j2])@,
            forall|j: int, p2: PlayerId, j2: int|
                0 <= j < popped.len() && 0 <= j2 < w0.deck_seq(p2).len() - (if p2 == self.player {
                    popped.len() as int
                } else {
                    0int
                }) ==> (#[trigger] popped[j])@ != (#[trigger] w0.deck_seq(p2)[j2])@,
    {
        let p = self.player;
        let dc = w0.deck_count(p);
        assert forall|j: int|
            0 <= j < popped.len() implies w0.deck_entry_ok(p, (#[trigger] popped[j])@ as int) by {
            assert(w0.deck_entry_ok(p, (w0.deck_seq(p)[dc - 1 - j])@ as int));
        }
        assert forall|j: int|
            0 <= j < popped.len() implies 0 <= (#[trigger] popped[j])@
                < w0.spec_entity_counter() by {
            let ci = popped[j]@ as int;
            if ci >= w0.spec_entity_counter() {
                assert(w0.comp_at(ComponentKind::InDeck, ci) is None);
                assert(w0.in_decks().at(ci) is None);
            }
        }
    }

    /// After the deck inside the player state is shortened, the re-tag
    /// invariant holds with no card moved yet.
    pub proof fn lemma_after_pop(self, w0: System, wmid: System, popped: Seq<Entity>)
        requires
            self.popped_ok(w0, popped),
            wmid.comps_eq_except(
                w0,
                ComponentKind::PlayerState,
                w0.player_entity(self.player),
            ),
            match wmid.player_states().at(w0.player_entity(self.player)) {
                Some(ps) => ps.deck@ == w0.deck_seq(self.player).take(
                    w0.deck_count(self.player) - popped.len(),
                ),
                None => false,
            },
            wmid.resources_eq(w0),
            wmid.spec_entity_counter() == w0.spec_entity_counter(),
            wmid.wf(),
        ensures
            self.phase_two_inv(w0, wmid, wmid, popped, 0),
            wmid.deck_seq(self.player) == w0.deck_seq(self.player).take(
                w0.deck_count(self.player) - popped.len(),
            ),
            wmid.deck_seq(self.player.spec_opp()) == w0.deck_seq(self.player.spec_opp()),
    {
        let p = self.player;
        let opp = p.spec_opp();
        let pe_i = w0.player_entity(p);
        let n = w0.spec_entity_counter() as int;
        let dc = w0.deck_count(p);
        let k = popped.len() as int;
        self.lemma_popped_distinct(w0, popped);

        assert forall|i: int| #[trigger] wmid.players().at(i) == w0.players().at(i) by {
            assert(wmid.comp_at(ComponentKind::Player, i) == w0.comp_at(ComponentKind::Player, i));
        }
        assert forall|i: int| #[trigger] wmid.in_hands().at(i) == w0.in_hands().at(i) by {
            assert(wmid.comp_at(ComponentKind::InHand, i) == w0.comp_at(ComponentKind::InHand, i));
        }
        assert forall|i: int| #[trigger] wmid.in_decks().at(i) == w0.in_decks().at(i) by {
            assert(wmid.comp_at(ComponentKind::InDeck, i) == w0.comp_at(ComponentKind::InDeck, i));
        }
        assert forall|i: int| #[trigger] wmid.card_ids().at(i) == w0.card_ids().at(i) by {
            assert(wmid.comp_at(ComponentKind::CardId, i) == w0.comp_at(ComponentKind::CardId, i));
        }
        assert forall|i: int| #[trigger] wmid.current_turns().at(i) == w0.current_turns().at(i) by {
            assert(wmid.comp_at(ComponentKind::CurrentTurn, i) == w0.comp_at(
                ComponentKind::CurrentTurn,
                i,
            ));
        }
        assert forall|i: int| #[trigger] wmid.faiths().at(i) == w0.faiths().at(i) by {
            assert(wmid.comp_at(ComponentKind::Faith, i) == w0.comp_at(ComponentKind::Faith, i));
        }
        assert forall|i: int| i != pe_i implies #[trigger] wmid.player_states().at(i)
            == w0.player_states().at(i) by {
            assert(wmid.comp_at(ComponentKind::PlayerState, i) == w0.comp_at(
                ComponentKind::PlayerState,
                i,
            ));
        }
        assert forall|p2: PlayerId| #[trigger] wmid.player_entity_ids(p2) == w0.player_entity_ids(
            p2,
        ) by {
            crate::store::lemma_ids_where_congruent(
                |i: int| wmid.players().at(i) == Some(p2),
                |i: int| w0.players().at(i) == Some(p2),
                n,
            );
        }
        assert forall|p2: PlayerId| #[trigger] wmid.faith_ids(p2) == w0.faith_ids(p2) by {
            crate::store::lemma_ids_where_congruent(
                |i: int| wmid.faiths().at(i) == Some(Faith(p2)),
                |i: int| w0.faiths().at(i) == Some(Faith(p2)),
                n,
            );
        }
        assert forall|p2: PlayerId| #[trigger] wmid.in_hand_ids(p2) == w0.in_hand_ids(p2) by {
            crate::store::lemma_ids_where_congruent(
                |i: int| wmid.in_hands().at(i) == Some(InHand(p2)),
                |i: int| w0.in_hands().at(i) == Some(InHand(p2)),
                n,
            );
        }
        assert(wmid.occupied_hand_ids() == w0.occupied_hand_ids()) by {
            crate::store::lemma_ids_where_congruent(
                |i: int| wmid.in_hands().at(i) is Some,
                |i: int| w0.in_hands().at(i) is Some,
                n,
            );
        }
        assert(wmid.occupied_deck_ids() == w0.occupied_deck_ids()) by {
            crate::store::lemma_ids_where_congruent(
                |i: int| wmid.in_decks().at(i) is Some,
                |i: int| w0.in_decks().at(i) is Some,
                n,
            );
        }

        // The two player entities are distinct.
        assert forall|p2: PlayerId|
            w0.player_entity_ids(p2).len() > 0 implies w0.players().at(
            #[trigger] w0.player_entity(p2),
        ) == Some(p2) by {
            let pl = |i: int| w0.players().at(i) == Some(p2);
            crate::store::lemma_ids_where_members(pl, n);
            assert(w0.player_entity_ids(p2) == ids_where(pl, n));
            assert(pl(w0.player_entity_ids(p2)[0] as int));
        }
        let pe0 = w0.player_entity(PlayerId::Player0);
        let pe1 = w0.player_entity(PlayerId::Player1);
        assert(w0.players().at(pe0) == Some(PlayerId::Player0));
        assert(w0.players().at(pe1) == Some(PlayerId::Player1));
        assert(w0.players().at(pe_i) == Some(p));
        assert(wmid.player_entity(PlayerId::Player0) == pe0);
        assert(wmid.player_entity(PlayerId::Player1) == pe1);
        assert(wmid.deck_seq(opp) == w0.deck_seq(opp));
        assert(wmid.deck_seq(p) == w0.deck_seq(p).take(dc - k));

        assert(wmid.game_wf()) by {
            assert forall|p2: PlayerId, j: int|
                0 <= j < wmid.deck_seq(p2).len() implies wmid.deck_entry_ok(
                p2,
                (#[trigger] wmid.deck_seq(p2)[j])@ as int,
            ) by {
                assert(wmid.deck_seq(p2)[j] == w0.deck_seq(p2)[j]);
                let ei = (w0.deck_seq(p2)[j])@ as int;
                assert(w0.deck_entry_ok(p2, ei));
                if ei == pe_i {
                    assert(w0.players().at(pe_i) == Some(p));
                    assert(false);
                }
            }
            assert forall|i: int| #[trigger]
                wmid.in_hands().at(i) is Some implies wmid.card_ids().at(i) is Some by {
                assert(w0.in_hands().at(i) is Some);
            }
            assert forall|p1: PlayerId, j1: int, p2: PlayerId, j2: int|
                0 <= j1 < wmid.deck_seq(p1).len() && 0 <= j2 < wmid.deck_seq(p2).len() && !(p1
                    == p2 && j1 == j2) implies (#[trigger] wmid.deck_seq(p1)[j1])@ != (
                #[trigger] wmid.deck_seq(p2)[j2])@ by {
                assert(wmid.deck_seq(p1)[j1] == w0.deck_seq(p1)[j1]);
                assert(wmid.deck_seq(p2)[j2] == w0.deck_seq(p2)[j2]);
                assert((w0.deck_seq(p1)[j1])@ != (w0.deck_seq(p2)[j2])@);
            }
            assert(wmid.player_states().at(pe0) is Some);
            assert(wmid.player_states().at(pe1) is Some);
        }

        assert forall|j: int|
            0 <= j < k implies wmid.in_hands().at((#[trigger] popped[j])@ as int) is None
                && wmid.in_decks().at(popped[j]@ as int) == Some(InDeck(p)) && wmid.card_ids().at(
                popped[j]@ as int,
            ) is Some by {
            assert(w0.deck_entry_ok(p, (popped[j])@ as int));
        }
    }

    /// One re-tagging step keeps the invariant: the card loses its deck
    /// tag and gains the player's hand tag.
    pub proof fn lemma_phase_two_step(
        self,
        w0: System,
        wmid: System,
        wstep: System,
        wa: System,
        wnew: System,
        popped: Seq<Entity>,
        m: int,
    )
        requires
            self.popped_ok(w0, popped),
            self.phase_two_inv(w0, wmid, wstep, popped, m),
            wmid.deck_seq(self.player) == w0.deck_seq(self.player).take(
                w0.deck_count(self.player) - popped.len(),
            ),
            wmid.deck_seq(self.player.spec_opp()) == w0.deck_seq(self.player.spec_opp()),
            0 <= m < popped.len(),
            wa.comps_eq_except(wstep, ComponentKind::InDeck, (popped[m])@ as int),
            wa.in_decks().at((popped[m])@ as int) is None,
            wa.resources_eq(wstep),
            wa.spec_entity_counter() == wstep.spec_entity_counter(),
            wa.wf(),
            wnew.comps_eq_except(wa, ComponentKind::InHand, (popped[m])@ as int),
            wnew.in_hands().at((popped[m])@ as int) == Some(InHand(self.player)),
            wnew.resources_eq(wa),
            wnew.spec_entity_counter() == wa.spec_entity_counter(),
            wnew.wf(),
        ensures
            self.phase_two_inv(w0, wmid, wnew, popped, m + 1),
    {
        let p = self.player;
        let k = popped.len() as int;
        let ci = (popped[m])@ as int;
        let n = w0.spec_entity_counter() as int;
        self.lemma_popped_distinct(w0, popped);

        assert forall|i: int| i != ci implies #[trigger] wnew.in_hands().at(i)
            == wstep.in_hands().at(i) by {
            assert(wnew.comp_at(ComponentKind::InHand, i) == wa.comp_at(ComponentKind::InHand, i));
            assert(wa.comp_at(ComponentKind::InHand, i) == wstep.comp_at(ComponentKind::InHand, i));
        }
        assert forall|i: int| i != ci implies #[trigger] wnew.in_decks().at(i)
            == wstep.in_decks().at(i) by {
            assert(wnew.comp_at(ComponentKind::InDeck, i) == wa.comp_at(ComponentKind::InDeck, i));
            assert(wa.comp_at(ComponentKind::InDeck, i) == wstep.comp_at(ComponentKind::InDeck, i));
        }
        assert(wnew.in_decks().at(ci) is None) by {
            assert(wnew.comp_at(ComponentKind::InDeck, ci) == wa.comp_at(ComponentKind::InDeck, ci));
        }
        assert forall|i: int| #[trigger] wnew.card_ids().at(i) == wstep.card_ids().at(i) by {
            assert(wnew.comp_at(ComponentKind::CardId, i) == wa.comp_at(ComponentKind::CardId, i));
            assert(wa.comp_at(ComponentKind::CardId, i) == wstep.comp_at(ComponentKind::CardId, i));
        }
        assert forall|i: int| #[trigger] wnew.current_turns().at(i) == wstep.current_turns().at(
            i,
        ) by {
            assert(wnew.comp_at(ComponentKind::CurrentTurn, i) == wa.comp_at(
                ComponentKind::CurrentTurn,
                i,
            ));
            assert(wa.comp_at(ComponentKind::CurrentTurn, i) == wstep.comp_at(
                ComponentKind::CurrentTurn,
                i,
            ));
        }
        assert forall|i: int| #[trigger] wnew.players().at(i) == wstep.players().at(i) by {
            assert(wnew.comp_at(ComponentKind::Player, i) == wa.comp_at(ComponentKind::Player, i));
            assert(wa.comp_at(ComponentKind::Player, i) == wstep.comp_at(ComponentKind::Player, i));
        }
        assert forall|i: int| #[trigger] wnew.player_states().at(i) == wstep.player_states().at(
            i,
        ) by {
            assert(wnew.comp_at(ComponentKind::PlayerState, i) == wa.comp_at(
                ComponentKind::PlayerState,
                i,
            ));
            assert(wa.comp_at(ComponentKind::PlayerState, i) == wstep.comp_at(
                ComponentKind::PlayerState,
                i,
            ));
        }
        assert forall|i: int| #[trigger] wnew.faiths().at(i) == wstep.faiths().at(i) by {
            assert(wnew.comp_at(ComponentKind::Faith, i) == wa.comp_at(ComponentKind::Faith, i));
            assert(wa.comp_at(ComponentKind::Faith, i) == wstep.comp_at(ComponentKind::Faith, i));
        }
        assert forall|p2: PlayerId| #[trigger] wnew.player_entity_ids(p2)
            == wstep.player_entity_ids(p2) by {
            crate::store::lemma_ids_where_congruent(
                |i: int| wnew.players().at(i) == Some(p2),
                |i: int| wstep.players().at(i) == Some(p2),
                n,
            );
        }
        assert forall|p2: PlayerId| #[trigger] wnew.deck_seq(p2) == wstep.deck_seq(p2) by {}
        assert forall|p2: PlayerId| #[trigger] wnew.faith_ids(p2) == wstep.faith_ids(p2) by {
            crate::store::lemma_ids_where_congruent(
                |i: int| wnew.faiths().at(i) == Some(Faith(p2)),
                |i: int| wstep.faiths().at(i) == Some(Faith(p2)),
                n,
            );
        }
        assert(wnew.hand_count(p) == wstep.hand_count(p) + 1) by {
            crate::store::lemma_ids_where_update(
                |i: int| wstep.in_hands().at(i) == Some(InHand(p)),
                |i: int| wnew.in_hands().at(i) == Some(InHand(p)),
                ci,
                n,
            );
        }
        assert(wnew.hand_count(p.spec_opp()) == wstep.hand_count(p.spec_opp())) by {
            crate::store::lemma_ids_where_update(
                |i: int| wstep.in_hands().at(i) == Some(InHand(p.spec_opp())),
                |i: int| wnew.in_hands().at(i) == Some(InHand(p.spec_opp())),
                ci,
                n,
            );
        }
        assert(wnew.occupied_hand_ids().len() == wstep.occupied_hand_ids().len() + 1) by {
            crate::store::lemma_ids_where_update(
                |i: int| wstep.in_hands().at(i) is Some,
                |i: int| wnew.in_hands().at(i) is Some,
                ci,
                n,
            );
        }
        assert(wnew.occupied_deck_ids().len() == wstep.occupied_deck_ids().len() - 1) by {
            crate::store::lemma_ids_where_update(
                |i: int| wstep.in_decks().at(i) is Some,
                |i: int| wnew.in_decks().at(i) is Some,
                ci,
                n,
            );
        }
        assert(wnew.game_wf()) by {
            assert forall|p2: PlayerId, j: int|
                0 <= j < wnew.deck_seq(p2).len() implies wnew.deck_entry_ok(
                p2,
                (#[trigger] wnew.deck_seq(p2)[j])@ as int,
            ) by {
                let ei = (wstep.deck_seq(p2)[j])@ as int;
                assert(wstep.deck_entry_ok(p2, ei));
                assert(wstep.deck_seq(p2) == wmid.deck_seq(p2));
                if ei == ci {
                    let dc = w0.deck_count(p);
                    if p2 == p {
                        assert(wstep.deck_seq(p2)[j] == w0.deck_seq(p)[j]);
                        assert((w0.deck_seq(p)[dc - 1 - m])@ != (w0.deck_seq(p)[j])@);
                    } else {
                        assert(wstep.deck_seq(p2)[j] == w0.deck_seq(p2)[j]);
                        assert((w0.deck_seq(p)[dc - 1 - m])@ != (w0.deck_seq(p2)[j])@);
                    }
                    assert(false);
                }
            }
            assert forall|i: int| #[trigger]
                wnew.in_hands().at(i) is Some implies wnew.card_ids().at(i) is Some by {
                if i != ci {
                    assert(wstep.in_hands().at(i) is Some);
                }
            }
            assert forall|p1: PlayerId, j1: int, p2: PlayerId, j2: int|
                0 <= j1 < wnew.deck_seq(p1).len() && 0 <= j2 < wnew.deck_seq(p2).len() && !(p1
                    == p2 && j1 == j2) implies (#[trigger] wnew.deck_seq(p1)[j1])@ != (
                #[trigger] wnew.deck_seq(p2)[j2])@ by {
                assert(wnew.deck_seq(p1) == wstep.deck_seq(p1));
                assert(wnew.deck_seq(p2) == wstep.deck_seq(p2));
                assert((wstep.deck_seq(p1)[j1])@ != (wstep.deck_seq(p2)[j2])@);
            }
            let pe0 = wstep.player_entity(PlayerId::Player0);
            let pe1 = wstep.player_entity(PlayerId::Player1);
            assert(wnew.player_entity(PlayerId::Player0) == pe0);
            assert(wnew.player_entity(PlayerId::Player1) == pe1);
            assert(wnew.player_states().at(pe0) is Some);
            assert(wnew.player_states().at(pe1) is Some);
        }
    }
}


/// The world that `Initalize` builds: each player owns a thirty-card
/// deck and three faith cards; hands are empty, the round counter is
/// zero, no turn is in progress, and the game is not finished.
pub open spec fn initial_world(w: System) -> bool {
    &&& w.game_wf()
    &&& w.spec_game() == Some(GameState { round: 0u32, finished: false })
    &&& w.spec_timer() is None
    &&& w.spec_entity_counter() == 68
    &&& w.player_entity(PlayerId::Player0) == 33
    &&& w.player_entity(PlayerId::Player1) == 67
    &&& w.deck_seq(PlayerId::Player0).len() == 30
    &&& w.deck_seq(PlayerId::Player1).len() == 30
    &&& forall|j: int|
        0 <= j < 30 ==> (#[trigger] w.deck_seq(PlayerId::Player0)[j])@ == j && w.card_ids().at(j)
            == Some(CardId(7001))
    &&& forall|j: int|
        0 <= j < 30 ==> (#[trigger] w.deck_seq(PlayerId::Player1)[j])@ == 34 + j && w.card_ids().at(
            34 + j,
        ) == Some(CardId(7002))
    &&& w.hand_count(PlayerId::Player0) == 0
    &&& w.hand_count(PlayerId::Player1) == 0
    &&& w.occupied_hand_ids().len() == 0
    &&& w.occupied_deck_ids().len() == 60
    &&& w.faith_ids(PlayerId::Player0).len() == 3
    &&& w.faith_ids(PlayerId::Player1).len() == 3
    &&& forall|j: int|
        0 <= j < 3 ==> #[trigger] w.faiths().at(30 + j) == Some(Faith(PlayerId::Player0))
            && #[trigger] w.faiths().at(64 + j) == Some(Faith(PlayerId::Player1))
            && w.card_ids().at(30 + j) == Some(CardId(8001)) && w.card_ids().at(64 + j) == Some(
            CardId(8001),
        )
    &&& forall|i: int| #[trigger] w.current_turns().at(i) is None
    &&& w.spec_log() matches Some(l) && l.entries@.len() == 1 && l.entries@[0]@
        == "The game began."@
}

/// Clears all state and sets up the starting position.
pub struct Initalize;

impl Action for Initalize {
    type Output = ();

    open spec fn pre(self, reg: Registry, w: System) -> bool {
        true
    }

    open spec fn post(self, reg: Registry, pre: System, post: System, out: ()) -> bool {
        initial_world(post)
    }

    #[verifier::rlimit(100)]
    #[verifier::spinoff_prover]
    fn perform(&self, world: &mut System, registry: &Registry) -> (out: Self::Output) {
        let mut fresh = System::new();
        fresh.add_resource(Resource::Game(GameState::new()));
        let ghost w1 = fresh;

        let deck0: Vec<CardId> = vec![CardId(7001); 30];
        let faith0: Vec<CardId> = vec![CardId(8001); 3];
        let ghost gdeck0 = deck0@;
        let ghost gfaith0 = faith0@;
        let ps0 = PlayerState::new(&mut fresh, PlayerId::Player0, deck0, faith0);
        let ghost w2 = fresh;
        proof {
            let p0 = PlayerId::Player0;
            assert forall|i: int|
                #![trigger w2.card_ids().at(i)]
                #![trigger w2.players().at(i)]
                #![trigger w2.in_hands().at(i)]
                #![trigger w2.in_decks().at(i)]
                #![trigger w2.faiths().at(i)]
                #![trigger w2.current_turns().at(i)]
                #![trigger w2.player_states().at(i)]
                0 <= i < 30 implies w2.card_ids().at(i) == Some(CardId(7001))
                    && w2.in_decks().at(i) == Some(InDeck(p0)) && w2.in_hands().at(i) is None
                    && w2.players().at(i) is None && w2.player_states().at(i) is None
                    && w2.current_turns().at(i) is None && w2.faiths().at(i) is None by {
                assert(gdeck0[i] == CardId(7001));
            }
            assert forall|i: int|
                #![trigger w2.card_ids().at(i)]
                #![trigger w2.players().at(i)]
                #![trigger w2.in_hands().at(i)]
                #![trigger w2.in_decks().at(i)]
                #![trigger w2.faiths().at(i)]
                #![trigger w2.current_turns().at(i)]
                #![trigger w2.player_states().at(i)]
                30 <= i < 33 implies w2.card_ids().at(i) == Some(CardId(8001))
                    && w2.faiths().at(i) == Some(Faith(p0)) && w2.in_hands().at(i) is None
                    && w2.in_decks().at(i) is None && w2.players().at(i) is None
                    && w2.player_states().at(i) is None && w2.current_turns().at(i) is None by {
                assert(gfaith0[i - 30] == CardId(8001));
            }
        }

        let mut comps0: Vec<Component> = Vec::new();
        comps0.push(Component::Player(PlayerId::Player0));
        comps0.push(Component::PlayerState(ps0));
        let ghost gcomps0 = comps0@;
        let e0 = fresh.spawn(comps0);
        let ghost w3 = fresh;

        let deck1: Vec<CardId> = vec![CardId(7002); 30];
        let faith1: Vec<CardId> = vec![CardId(8001); 3];
        let ghost gdeck1 = deck1@;
        let ghost gfaith1 = faith1@;
        let ps1 = PlayerState::new(&mut fresh, PlayerId::Player1, deck1, faith1);
        let ghost w4 = fresh;
        proof {
            let p1 = PlayerId::Player1;
            assert forall|i: int|
                #![trigger w4.card_ids().at(i)]
                #![trigger w4.players().at(i)]
                #![trigger w4.in_hands().at(i)]
                #![trigger w4.in_decks().at(i)]
                #![trigger w4.faiths().at(i)]
                #![trigger w4.current_turns().at(i)]
                #![trigger w4.player_states().at(i)]
                34 <= i < 64 implies w4.card_ids().at(i) == Some(CardId(7002))
                    && w4.in_decks().at(i) == Some(InDeck(p1)) && w4.in_hands().at(i) is None
                    && w4.players().at(i) is None && w4.player_states().at(i) is None
                    && w4.current_turns().at(i) is None && w4.faiths().at(i) is None by {
                assert(gdeck1[i - 34] == CardId(7002));
            }
            assert forall|i: int|
                #![trigger w4.card_ids().at(i)]
                #![trigger w4.players().at(i)]
                #![trigger w4.in_hands().at(i)]
                #![trigger w4.in_decks().at(i)]
                #![trigger w4.faiths().at(i)]
                #![trigger w4.current_turns().at(i)]
                #![trigger w4.player_states().at(i)]
                64 <= i < 67 implies w4.card_ids().at(i) == Some(CardId(8001))
                    && w4.faiths().at(i) == Some(Faith(p1)) && w4.in_hands().at(i) is None
                    && w4.in_decks().at(i) is None && w4.players().at(i) is None
                    && w4.player_states().at(i) is None && w4.current_turns().at(i) is None by {
                assert(gfaith1[i - 64] == CardId(8001));
            }
        }

        let mut comps1: Vec<Component> = Vec::new();
        comps1.push(Component::Player(PlayerId::Player1));
        comps1.push(Component::PlayerState(ps1));
        let ghost gcomps1 = comps1@;
        let e1 = fresh.spawn(comps1);
        let ghost w5 = fresh;

        fresh.push_log(String::from_str("The game began."));
        *world = fresh;
        proof {
            let w6 = *world;
            let p0 = PlayerId::Player0;
            let p1 = PlayerId::Player1;

            // Where each entity landed.
            assert(e0@ == 33 && e1@ == 67 && w6.spec_entity_counter() == 68);

            // What the two player-entity spawns attached.
            assert(gcomps0[0] == Component::Player(p0));
            assert(gcomps1[0] == Component::Player(p1));
            assert(w3.comp_at(ComponentKind::Player, 33) == Some(Component::Player(p0)));
            assert(w3.comp_at(ComponentKind::PlayerState, 33) == Some(gcomps0[1]));
            assert forall|k: ComponentKind|
                k != ComponentKind::Player && k != ComponentKind::PlayerState implies #[trigger] w3.comp_at(
                k,
                33,
            ) is None by {
                assert(forall|j: int|
                    0 <= j < gcomps0.len() ==> (#[trigger] gcomps0[j]).kind() != k);
            }
            assert(w5.comp_at(ComponentKind::Player, 67) == Some(Component::Player(p1)));
            assert(w5.comp_at(ComponentKind::PlayerState, 67) == Some(gcomps1[1]));
            assert forall|k: ComponentKind|
                k != ComponentKind::Player && k != ComponentKind::PlayerState implies #[trigger] w5.comp_at(
                k,
                67,
            ) is None by {
                assert(forall|j: int|
                    0 <= j < gcomps1.len() ==> (#[trigger] gcomps1[j]).kind() != k);
            }

            // Pointwise transport of every storage from each stage to the end.
            assert forall|k: ComponentKind, i: int|
                i != 67 implies #[trigger] w6.comp_at(k, i) == w4.comp_at(k, i) by {
                assert(w6.comp_at(k, i) == w5.comp_at(k, i));
                assert(w5.comp_at(k, i) == w4.comp_at(k, i));
            }
            assert forall|k: ComponentKind, i: int|
                i < 34 && i != 33 implies #[trigger] w6.comp_at(k, i) == w2.comp_at(k, i) by {
                assert(w6.comp_at(k, i) == w4.comp_at(k, i));
                assert(w4.comp_at(k, i) == w3.comp_at(k, i));
                assert(w3.comp_at(k, i) == w2.comp_at(k, i));
            }
            assert(w6.comp_at(ComponentKind::Player, 33) == w3.comp_at(ComponentKind::Player, 33));
            assert(w6.comp_at(ComponentKind::PlayerState, 33) == w3.comp_at(
                ComponentKind::PlayerState,
                33,
            ));
            assert(w6.comp_at(ComponentKind::Player, 67) == w5.comp_at(ComponentKind::Player, 67));
            assert(w6.comp_at(ComponentKind::PlayerState, 67) == w5.comp_at(
                ComponentKind::PlayerState,
                67,
            ));

            // Resources.
            assert(w1.res_at(ResourceKind::Game) == Some(
                Resource::Game(GameState { round: 0u32, finished: false }),
            ));
            assert(w1.res_at(ResourceKind::Timer) is None);
            assert(w6.spec_game() == w5.spec_game() && w5.spec_game() == w4.spec_game()
                && w4.spec_game() == w3.spec_game() && w3.spec_game() == w2.spec_game()
                && w2.spec_game() == w1.spec_game());
            assert(w6.spec_timer() == w5.spec_timer() && w5.spec_timer() == w4.spec_timer()
                && w4.spec_timer() == w3.spec_timer() && w3.spec_timer() == w2.spec_timer()
                && w2.spec_timer() == w1.spec_timer());
            assert(w6.spec_game() == Some(GameState { round: 0u32, finished: false }));
            assert(w6.spec_timer() is None);
            assert(w1.res_at(ResourceKind::Log) is None);
            assert(w5.spec_log() == w4.spec_log() && w4.spec_log() == w3.spec_log()
                && w3.spec_log() == w2.spec_log() && w2.spec_log() == w1.spec_log());
            assert(w6.spec_log() matches Some(l) && l.entries@.len() == 1 && l.entries@[0]@
                == "The game began."@);

            // Player entity lists.
            assert(w2.player_entity_ids(p0) =~= Seq::<u32>::empty());
            assert(w2.player_entity_ids(p1) =~= Seq::<u32>::empty());
            assert forall|i: int| 0 <= i < 33 implies #[trigger] w3.players().at(i) is None by {
                assert(w3.comp_at(ComponentKind::Player, i) == w2.comp_at(ComponentKind::Player, i));
                if i < 30 {
                    assert(w2.players().at(i) is None);
                } else {
                    assert(w2.players().at(i) is None);
                }
            }
            assert(w3.players().at(33) == Some(p0));
            assert(w3.player_entity_ids(p0) =~= seq![33u32]) by {
                crate::store::lemma_ids_where_empty(|i: int| w3.players().at(i) == Some(p0), 33);
            }
            assert(w3.player_entity_ids(p1) =~= Seq::<u32>::empty()) by {
                crate::store::lemma_ids_where_empty(|i: int| w3.players().at(i) == Some(p1), 34);
            }
            assert(w4.player_entity_ids(p0) == w3.player_entity_ids(p0));
            assert(w4.player_entity_ids(p1) == w3.player_entity_ids(p1));
            assert forall|i: int| 34 <= i < 67 implies #[trigger] w4.players().at(i) is None by {
                if i < 64 {
                    assert(w4.players().at(i) is None);
                } else {
                    assert(w4.players().at(i) is None);
                }
            }
            assert forall|i: int| i < 67 && i != 33 implies #[trigger] w5.players().at(
                i,
            ) is None by {
                assert(w5.comp_at(ComponentKind::Player, i) == w4.comp_at(ComponentKind::Player, i));
                if i < 0 {
                } else if i < 34 {
                    assert(w4.comp_at(ComponentKind::Player, i) == w3.comp_at(
                        ComponentKind::Player,
                        i,
                    ));
                } else {
                    assert(w4.players().at(i) is None);
                }
            }
            assert(w5.players().at(33) == Some(p0)) by {
                assert(w5.comp_at(ComponentKind::Player, 33) == w4.comp_at(
                    ComponentKind::Player,
                    33,
                ));
                assert(w4.comp_at(ComponentKind::Player, 33) == w3.comp_at(
                    ComponentKind::Player,
                    33,
                ));
            }
            assert(w5.players().at(67) == Some(p1));
            assert(w5.player_entity_ids(p0) =~= seq![33u32]) by {
                assert forall|i: int|
                    0 <= i < 34 implies #[trigger] w5.players().at(i) == w4.players().at(i) by {
                    assert(w5.comp_at(ComponentKind::Player, i) == w4.comp_at(
                        ComponentKind::Player,
                        i,
                    ));
                }
                assert forall|i: int|
                    0 <= i < 34 implies #[trigger] w4.players().at(i) == w3.players().at(i) by {
                    assert(w4.comp_at(ComponentKind::Player, i) == w3.comp_at(
                        ComponentKind::Player,
                        i,
                    ));
                }
                crate::store::lemma_ids_where_extend(
                    |i: int| w4.players().at(i) == Some(p0),
                    |i: int| w5.players().at(i) == Some(p0),
                    34,
                    68,
                );
                crate::store::lemma_ids_where_congruent(
                    |i: int| w4.players().at(i) == Some(p0),
                    |i: int| w3.players().at(i) == Some(p0),
                    34,
                );
            }
            assert(w5.player_entity_ids(p1) =~= seq![67u32]) by {
                assert(ids_where(|i: int| w5.players().at(i) == Some(p1), 68) == ids_where(
                    |i: int| w5.players().at(i) == Some(p1),
                    67,
                ).push(67u32));
                crate::store::lemma_ids_where_empty(|i: int| w5.players().at(i) == Some(p1), 67);
            }
            assert forall|i: int| #[trigger] w6.players().at(i) == w5.players().at(i) by {
                assert(w6.comp_at(ComponentKind::Player, i) == w5.comp_at(ComponentKind::Player, i));
            }
            assert(w6.player_entity_ids(p0) =~= seq![33u32]) by {
                crate::store::lemma_ids_where_congruent(
                    |i: int| w6.players().at(i) == Some(p0),
                    |i: int| w5.players().at(i) == Some(p0),
                    68,
                );
            }
            assert(w6.player_entity_ids(p1) =~= seq![67u32]) by {
                crate::store::lemma_ids_where_congruent(
                    |i: int| w6.players().at(i) == Some(p1),
                    |i: int| w5.players().at(i) == Some(p1),
                    68,
                );
            }
            assert(w6.player_entity(p0) == 33);
            assert(w6.player_entity(p1) == 67);

            // Decks.
            let gps0 = gcomps0[1]->PlayerState_0;
            let gps1 = gcomps1[1]->PlayerState_0;
            assert(w6.player_states().at(33) == Some(gps0));
            assert(w6.player_states().at(67) == Some(gps1));
            assert(w6.deck_seq(p0) == gps0.deck@);
            assert(w6.deck_seq(p1) == gps1.deck@);
            assert(w6.deck_seq(p0).len() == 30);
            assert(w6.deck_seq(p1).len() == 30);
            assert forall|j: int|
                0 <= j < 30 implies (#[trigger] w6.deck_seq(p0)[j])@ == j && w6.card_ids().at(j)
                    == Some(CardId(7001)) by {
                assert(gps0.deck@[j]@ == j);
                assert(w2.card_ids().at(j) == Some(CardId(7001)));
                assert(w6.comp_at(ComponentKind::CardId, j) == w2.comp_at(ComponentKind::CardId, j));
            }
            assert forall|j: int|
                0 <= j < 30 implies (#[trigger] w6.deck_seq(p1)[j])@ == 34 + j && w6.card_ids().at(
                    34 + j,
                ) == Some(CardId(7002)) by {
                assert(gps1.deck@[j]@ == 34 + j);
                assert(w4.card_ids().at(34 + j) == Some(CardId(7002)));
                assert(w6.comp_at(ComponentKind::CardId, 34 + j) == w4.comp_at(
                    ComponentKind::CardId,
                    34 + j,
                ));
            }

            // Hands are empty everywhere.
            assert forall|i: int| #[trigger] w6.in_hands().at(i) is None by {
                assert(w6.comp_at(ComponentKind::InHand, i) == w5.comp_at(ComponentKind::InHand, i)
                    || i == 67);
                if i == 67 {
                    assert(w5.comp_at(ComponentKind::InHand, 67) is None);
                } else if i == 33 {
                    assert(w3.comp_at(ComponentKind::InHand, 33) is None);
                    assert(w5.comp_at(ComponentKind::InHand, 33) == w4.comp_at(
                        ComponentKind::InHand,
                        33,
                    ));
                    assert(w4.comp_at(ComponentKind::InHand, 33) == w3.comp_at(
                        ComponentKind::InHand,
                        33,
                    ));
                } else if 0 <= i < 33 {
                    assert(w2.in_hands().at(i) is None);
                    assert(w6.comp_at(ComponentKind::InHand, i) == w2.comp_at(
                        ComponentKind::InHand,
                        i,
                    ));
                } else if 34 <= i < 67 {
                    assert(w4.in_hands().at(i) is None);
                    assert(w5.comp_at(ComponentKind::InHand, i) == w4.comp_at(
                        ComponentKind::InHand,
                        i,
                    ));
                    assert(w6.comp_at(ComponentKind::InHand, i) == w5.comp_at(
                        ComponentKind::InHand,
                        i,
                    ));
                } else {
                    assert(w6.comp_at(ComponentKind::InHand, i) is None);
                }
            }
            assert(w6.occupied_hand_ids() =~= Seq::<u32>::empty()) by {
                crate::store::lemma_ids_where_empty(|i: int| w6.in_hands().at(i) is Some, 68);
            }
            assert(w6.in_hand_ids(p0) =~= Seq::<u32>::empty()) by {
                crate::store::lemma_ids_where_empty(
                    |i: int| w6.in_hands().at(i) == Some(InHand(p0)),
                    68,
                );
            }
            assert(w6.in_hand_ids(p1) =~= Seq::<u32>::empty()) by {
                crate::store::lemma_ids_where_empty(
                    |i: int| w6.in_hands().at(i) == Some(InHand(p1)),
                    68,
                );
            }

            // No turn is in progress.
            assert forall|i: int| #[trigger] w6.current_turns().at(i) is None by {
                if i == 67 {
                    assert(w5.comp_at(ComponentKind::CurrentTurn, 67) is None);
                    assert(w6.comp_at(ComponentKind::CurrentTurn, i) == w5.comp_at(
                        ComponentKind::CurrentTurn,
                        i,
                    ));
                } else if i == 33 {
                    assert(w3.comp_at(ComponentKind::CurrentTurn, 33) is None);
                    assert(w6.comp_at(ComponentKind::CurrentTurn, i) == w4.comp_at(
                        ComponentKind::CurrentTurn,
                        i,
                    ));
                    assert(w4.comp_at(ComponentKind::CurrentTurn, i) == w3.comp_at(
                        ComponentKind::CurrentTurn,
                        i,
                    ));
                } else if 0 <= i < 33 {
                    assert(w2.current_turns().at(i) is None);
                    assert(w6.comp_at(ComponentKind::CurrentTurn, i) == w2.comp_at(
                        ComponentKind::CurrentTurn,
                        i,
                    ));
                } else if 34 <= i < 67 {
                    assert(w4.current_turns().at(i) is None);
                    assert(w6.comp_at(ComponentKind::CurrentTurn, i) == w4.comp_at(
                        ComponentKind::CurrentTurn,
                        i,
                    ));
                } else {
                    assert(w6.comp_at(ComponentKind::CurrentTurn, i) is None);
                }
            }

            // Deck occupancy and faith rows.
            assert forall|i: int| #[trigger] w6.in_decks().at(i) == (if 0 <= i < 30 {
                Some(InDeck(p0))
            } else if 34 <= i < 64 {
                Some(InDeck(p1))
            } else {
                None
            }) by {
                if 0 <= i < 30 {
                    assert(w2.in_decks().at(i) == Some(InDeck(p0)));
                    assert(w6.comp_at(ComponentKind::InDeck, i) == w2.comp_at(
                        ComponentKind::InDeck,
                        i,
                    ));
                } else if 30 <= i < 33 {
                    assert(w2.in_decks().at(i) is None);
                    assert(w6.comp_at(ComponentKind::InDeck, i) == w2.comp_at(
                        ComponentKind::InDeck,
                        i,
                    ));
                } else if i == 33 {
                    assert(w3.comp_at(ComponentKind::InDeck, 33) is None);
                    assert(w6.comp_at(ComponentKind::InDeck, i) == w4.comp_at(
                        ComponentKind::InDeck,
                        i,
                    ));
                    assert(w4.comp_at(ComponentKind::InDeck, i) == w3.comp_at(
                        ComponentKind::InDeck,
                        i,
                    ));
                } else if 34 <= i < 64 {
                    assert(w4.in_decks().at(i) == Some(InDeck(p1)));
                    assert(w6.comp_at(ComponentKind::InDeck, i) == w4.comp_at(
                        ComponentKind::InDeck,
                        i,
                    ));
                } else if 64 <= i < 67 {
                    assert(w4.in_decks().at(i) is None);
                    assert(w6.comp_at(ComponentKind::InDeck, i) == w4.comp_at(
                        ComponentKind::InDeck,
                        i,
                    ));
                } else if i == 67 {
                    assert(w5.comp_at(ComponentKind::InDeck, 67) is None);
                    assert(w6.comp_at(ComponentKind::InDeck, i) == w5.comp_at(
                        ComponentKind::InDeck,
                        i,
                    ));
                } else {
                    assert(w6.comp_at(ComponentKind::InDeck, i) is None);
                }
            }
            assert forall|i: int| #[trigger] w6.faiths().at(i) == (if 30 <= i < 33 {
                Some(Faith(p0))
            } else if 64 <= i < 67 {
                Some(Faith(p1))
            } else {
                None
            }) by {
                if 0 <= i < 30 {
                    assert(w2.faiths().at(i) is None);
                    assert(w6.comp_at(ComponentKind::Faith, i) == w2.comp_at(
                        ComponentKind::Faith,
                        i,
                    ));
                } else if 30 <= i < 33 {
                    assert(w2.faiths().at(i) == Some(Faith(p0)));
                    assert(w6.comp_at(ComponentKind::Faith, i) == w2.comp_at(
                        ComponentKind::Faith,
                        i,
                    ));
                } else if i == 33 {
                    assert(w3.comp_at(ComponentKind::Faith, 33) is None);
                    assert(w6.comp_at(ComponentKind::Faith, i) == w4.comp_at(
                        ComponentKind::Faith,
                        i,
                    ));
                    assert(w4.comp_at(ComponentKind::Faith, i) == w3.comp_at(
                        ComponentKind::Faith,
                        i,
                    ));
                } else if 34 <= i < 64 {
                    assert(w4.in_decks().at(i) == Some(InDeck(p1)));
                    assert(w4.faiths().at(i) is None);
                    assert(w6.comp_at(ComponentKind::Faith, i) == w4.comp_at(
                        ComponentKind::Faith,
                        i,
                    ));
                } else if 64 <= i < 67 {
                    assert(w4.faiths().at(i) == Some(Faith(p1)));
                    assert(w6.comp_at(ComponentKind::Faith, i) == w4.comp_at(
                        ComponentKind::Faith,
                        i,
                    ));
                } else if i == 67 {
                    assert(w5.comp_at(ComponentKind::Faith, 67) is None);
                    assert(w6.comp_at(ComponentKind::Faith, i) == w5.comp_at(
                        ComponentKind::Faith,
                        i,
                    ));
                } else {
                    assert(w6.comp_at(ComponentKind::Faith, i) is None);
                }
            }
            assert forall|j: int|
                0 <= j < 3 implies #[trigger] w6.card_ids().at(30 + j) == Some(CardId(8001))
                    && #[trigger] w6.card_ids().at(64 + j) == Some(CardId(8001)) by {
                assert(w2.card_ids().at(30 + j) == Some(CardId(8001)));
                assert(w6.comp_at(ComponentKind::CardId, 30 + j) == w2.comp_at(
                    ComponentKind::CardId,
                    30 + j,
                ));
                assert(w4.card_ids().at(64 + j) == Some(CardId(8001)));
                assert(w6.comp_at(ComponentKind::CardId, 64 + j) == w4.comp_at(
                    ComponentKind::CardId,
                    64 + j,
                ));
            }
            assert(w6.occupied_deck_ids().len() == 60) by {
                crate::store::lemma_ids_where_split(|i: int| w6.in_decks().at(i) is Some, 0, 30, 34, 64, 68);
            }
            assert(w6.faith_ids(p0).len() == 3) by {
                crate::store::lemma_ids_where_split(
                    |i: int| w6.faiths().at(i) == Some(Faith(p0)),
                    30,
                    33,
                    33,
                    33,
                    68,
                );
            }
            assert(w6.faith_ids(p1).len() == 3) by {
                crate::store::lemma_ids_where_split(
                    |i: int| w6.faiths().at(i) == Some(Faith(p1)),
                    64,
                    67,
                    67,
                    67,
                    68,
                );
            }

            // Well-formedness of the whole position.
            assert(w6.game_wf()) by {
                assert forall|p2: PlayerId, j: int|
                    0 <= j < w6.deck_seq(p2).len() implies w6.deck_entry_ok(
                    p2,
                    (#[trigger] w6.deck_seq(p2)[j])@ as int,
                ) by {
                    if p2 == p0 {
                        let ei = (w6.deck_seq(p0)[j])@ as int;
                        assert(ei == j);
                        assert(w6.players().at(ei) is None);
                        assert(w6.player_states().at(ei) == w2.player_states().at(ei)) by {
                            assert(w6.comp_at(ComponentKind::PlayerState, ei) == w2.comp_at(
                                ComponentKind::PlayerState,
                                ei,
                            ));
                        }
                    } else {
                        let ei = (w6.deck_seq(p1)[j])@ as int;
                        assert(ei == 34 + j);
                        assert(w6.players().at(ei) is None);
                        assert(w6.player_states().at(ei) == w4.player_states().at(ei)) by {
                            assert(w6.comp_at(ComponentKind::PlayerState, ei) == w4.comp_at(
                                ComponentKind::PlayerState,
                                ei,
                            ));
                        }
                    }
                }
                assert forall|p1x: PlayerId, j1: int, p2x: PlayerId, j2: int|
                    0 <= j1 < w6.deck_seq(p1x).len() && 0 <= j2 < w6.deck_seq(p2x).len() && !(p1x
                        == p2x && j1 == j2) implies (#[trigger] w6.deck_seq(p1x)[j1])@ != (
                    #[trigger] w6.deck_seq(p2x)[j2])@ by {}
            }
        }
    }
}


/// What resolving one skill does to the world.
pub open spec fn skill_post(
    skill: SkillDef,
    player: PlayerId,
    reg: Registry,
    w0: System,
    w1: System,
) -> bool {
    match skill {
        SkillDef::DrawCards(n) => exists|out: Vec<Entity>|
            (DrawCards { player, count: n }).post(reg, w0, w1, out),
    }
}

/// Sequential resolution of a list of skills, in declared order.
pub open spec fn skills_post(
    skills: Seq<SkillDef>,
    player: PlayerId,
    reg: Registry,
    w0: System,
    w1: System,
) -> bool
    decreases skills.len(),
{
    if skills.len() == 0 {
        w1 == w0
    } else {
        exists|wm: System|
            #[trigger] skill_post(skills[0], player, reg, w0, wm) && skills_post(
                skills.drop_first(),
                player,
                reg,
                wm,
                w1,
            )
    }
}

/// The world changed only by one appended log line.
pub open spec fn only_logged(a: System, b: System) -> bool {
    &&& b.comps_eq(a)
    &&& b.spec_game() == a.spec_game()
    &&& b.spec_timer() == a.spec_timer()
    &&& b.spec_entity_counter() == a.spec_entity_counter()
    &&& a.log_grew(b)
}

/// Resolving one more skill at the end extends a sequential resolution.
pub proof fn lemma_skills_post_snoc(
    skills: Seq<SkillDef>,
    x: SkillDef,
    player: PlayerId,
    reg: Registry,
    w0: System,
    wm: System,
    w1: System,
)
    requires
        skills_post(skills, player, reg, w0, wm),
        skill_post(x, player, reg, wm, w1),
    ensures
        skills_post(skills.push(x), player, reg, w0, w1),
    decreases skills.len(),
{
    if skills.len() == 0 {
        assert(skills.push(x)[0] == x);
        assert(skills.push(x).drop_first() =~= Seq::<SkillDef>::empty());
        assert(skill_post(skills.push(x)[0], player, reg, w0, w1));
        assert(skills_post(skills.push(x).drop_first(), player, reg, w1, w1));
    } else {
        let wi = choose|wi: System|
            #[trigger] skill_post(skills[0], player, reg, w0, wi) && skills_post(
                skills.drop_first(),
                player,
                reg,
                wi,
                wm,
            );
        lemma_skills_post_snoc(skills.drop_first(), x, player, reg, wi, wm, w1);
        assert(skills.push(x)[0] == skills[0]);
        assert(skills.push(x).drop_first() =~= skills.drop_first().push(x));
        assert(skill_post(skills.push(x)[0], player, reg, w0, wi));
        assert(skills_post(skills.push(x).drop_first(), player, reg, wi, w1));
    }
}

/// Resolves the registry prototype for `card_id`: an order card runs each
/// of its skills in declared order and is logged; a faith card or an
/// unknown identifier is a silent no-op.
pub struct ExecuteCard {
    pub player: PlayerId,
    pub card_id: CardId,
}

impl Action for ExecuteCard {
    type Output = ();

    open spec fn pre(self, reg: Registry, w: System) -> bool {
        w.game_wf()
    }

    open spec fn post(self, reg: Registry, pre: System, post: System, out: ()) -> bool {
        if !reg.spec_cards().contains_key(self.card_id.0) {
            post == pre
        } else {
            match reg.spec_cards()[self.card_id.0] {
                CardDef::Faith(_) => post == pre,
                CardDef::Order(o) => exists|wm: System|
                    #[trigger] skills_post(o.skills@, self.player, reg, pre, wm) && only_logged(
                        wm,
                        post,
                    ),
            }
        }
    }

    fn perform(&self, world: &mut System, registry: &Registry) -> (out: Self::Output) {
        let ghost w0 = *world;
        let def = registry.lookup(self.card_id);
        match def {
            None => {},
            Some(CardDef::Faith(_)) => {},
            Some(CardDef::Order(o)) => {
                let ghost gskills = o.skills@;
                let mut i: usize = 0;
                while i < o.skills.len()
                    invariant
                        i <= gskills.len(),
                        o.skills@ == gskills,
                        world.game_wf(),
                        (*self).pre(*registry, w0),
                        skills_post(
                            gskills.subrange(0, i as int),
                            self.player,
                            *registry,
                            w0,
                            *world,
                        ),
                    decreases gskills.len() - i,
                {
                    let ghost wstep = *world;
                    match o.skills[i] {
                        SkillDef::DrawCards(n) => {
                            let drawn = (DrawCards { player: self.player, count: n }).perform(
                                world,
                                registry,
                            );
                            proof {
                                assert((DrawCards { player: self.player, count: n }).post(
                                    *registry,
                                    wstep,
                                    *world,
                                    drawn,
                                ));
                                assert(skill_post(
                                    gskills[i as int],
                                    self.player,
                                    *registry,
                                    wstep,
                                    *world,
                                ));
                            }
                        },
                    }
                    proof {
                        lemma_skills_post_snoc(
                            gskills.subrange(0, i as int),
                            gskills[i as int],
                            self.player,
                            *registry,
                            w0,
                            wstep,
                            *world,
                        );
                        assert(gskills.subrange(0, i as int).push(gskills[i as int])
                            =~= gskills.subrange(0, i + 1 as int));
                    }
                    i = i + 1;
                }
                let ghost wdone = *world;
                world.push_log(String::from_str("A card's effect resolved."));
                proof {
                    assert(gskills.subrange(0, gskills.len() as int) =~= gskills);
                    assert(wdone.res_at(ResourceKind::Game) == world.res_at(ResourceKind::Game));
                    assert forall|k: ComponentKind, i2: int| #[trigger] world.comp_at(k, i2)
                        == wdone.comp_at(k, i2) by {}
                    assert(only_logged(wdone, *world));
                    assert(skills_post(o.skills@, self.player, *registry, w0, wdone));
                    assert(registry.spec_cards().contains_key(self.card_id.0));
                    assert(registry.spec_cards()[self.card_id.0] == CardDef::Order(*o));
                    assert((*self).post(*registry, w0, *world, ()));
                }
            },
        }
    }
}

} // verus!
