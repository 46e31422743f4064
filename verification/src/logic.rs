//! The game loop, written as an explicit state machine over the room.
//!
//! The loop is synchronous except while it waits for a player's reply;
//! those waits are the [`Flow`] resting states. The caller performs the
//! outside waiting (timers, channels) and drives the loop through
//! [`Room::submit_user_event`] and [`Room::timeout_user_event`].

use vstd::prelude::*;

use crate::action::{
    skills_post, Action, BumpRound, DrawCards, EndTurn, ExecuteCard, GameFinished, Initalize, PlayCard,
    StartTurn,
};
use crate::card::{CardId, Registry};
use crate::events::{
    pay_cost_from_reply, turn_action_from_reply, Cost, CostProvider, RequestCostAction,
    RequestEventType, RequestTurnAction, TurnAction, UserEventType,
};
use crate::player::PlayerId;
use crate::room::{Flow, Room, RoomError, RoomState};
use crate::state::GameState;
use crate::store::Entity;
use crate::system::System;

verus! {

/// Resolving a list of skills keeps the game well formed and leaves the
/// global record and timer alone.
proof fn lemma_skills_keep_game_wf(
    skills: Seq<crate::card::SkillDef>,
    player: PlayerId,
    reg: Registry,
    w0: System,
    w1: System,
)
    requires
        skills_post(skills, player, reg, w0, w1),
        w0.game_wf(),
    ensures
        w1.game_wf(),
        w1.spec_game() == w0.spec_game(),
        w1.spec_timer() == w0.spec_timer(),
        forall|i: int| #[trigger] w1.current_turns().at(i) == w0.current_turns().at(i),
        forall|p: PlayerId| #[trigger] w1.player_entity_ids(p) == w0.player_entity_ids(p),
    decreases skills.len(),
{
    if skills.len() == 0 {
    } else {
        let wm = choose|wm: System|
            #[trigger] crate::action::skill_post(skills[0], player, reg, w0, wm) && skills_post(
                skills.drop_first(),
                player,
                reg,
                wm,
                w1,
            );
        match skills[0] {
            crate::card::SkillDef::DrawCards(n) => {
                let out = choose|out: Vec<Entity>|
                    #[trigger] (DrawCards { player, count: n }).post(reg, w0, wm, out);
                assert(wm.game_wf());
            },
        }
        lemma_skills_keep_game_wf(skills.drop_first(), player, reg, wm, w1);
    }
}

/// Executing a card keeps the game well formed and leaves the global
/// record and timer alone.
proof fn lemma_execute_keeps_game_wf(a: ExecuteCard, reg: Registry, w0: System, w1: System)
    requires
        crate::action::Action::post(a, reg, w0, w1, ()),
        w0.game_wf(),
    ensures
        w1.game_wf(),
        w1.spec_game() == w0.spec_game(),
        w1.spec_timer() == w0.spec_timer(),
        forall|i: int| #[trigger] w1.current_turns().at(i) == w0.current_turns().at(i),
        forall|p: PlayerId| #[trigger] w1.player_entity_ids(p) == w0.player_entity_ids(p),
{
    if reg.spec_cards().contains_key(a.card_id.0) {
        match reg.spec_cards()[a.card_id.0] {
            crate::card::CardDef::Faith(_) => {},
            crate::card::CardDef::Order(o) => {
                let wm = choose|wm: System|
                    #[trigger] skills_post(o.skills@, a.player, reg, w0, wm)
                        && crate::action::only_logged(wm, w1);
                lemma_skills_keep_game_wf(o.skills@, a.player, reg, w0, wm);
                crate::system::lemma_same_comps_same_game_view(wm, w1);
                assert forall|i: int| #[trigger] w1.current_turns().at(i)
                    == w0.current_turns().at(i) by {
                    assert(w1.comp_at(crate::system::ComponentKind::CurrentTurn, i) == wm.comp_at(
                        crate::system::ComponentKind::CurrentTurn,
                        i,
                    ));
                    assert(wm.current_turns().at(i) == w0.current_turns().at(i));
                }
            },
        }
    }
}

/// How one `Room::submit_user_event` call relates its outcome to the
/// state it ran against: the reply is matched by sequence number alone;
/// a number with an outstanding request is accepted, and a number
/// without one is answered "not found" and changes nothing. (Once a
/// reply is accepted, the loop may at once issue its next request, and
/// the slot-reusing table may hand the same number out again; while the
/// slot stays free, a reply under it keeps answering "not found".)
pub open spec fn submit_step(
    pre: Room,
    post: Room,
    seqnum: usize,
    r: Result<(), RoomError>,
) -> bool {
    &&& (r is Ok <==> pre.slot_occupied(seqnum as int))
    &&& (r == Err::<(), RoomError>(RoomError::NotFound) <==> !pre.slot_occupied(seqnum as int))
    &&& (r is Err ==> post == pre)
}

/// A request/response exchange that times out frees its sequence-number
/// slot (the expiry bookkeeping leaves the slot unoccupied), so a reply
/// submitted under that same number afterwards is answered "not found"
/// and leaves the room untouched.
pub proof fn expired_request_reports_not_found(
    after_expiry: Room,
    post: Room,
    seqnum: usize,
    r: Result<(), RoomError>,
)
    requires
        !after_expiry.slot_occupied(seqnum as int),
        submit_step(after_expiry, post, seqnum, r),
    ensures
        r == Err::<(), RoomError>(RoomError::NotFound),
        post == after_expiry,
{
}

/// The world-level shape of a closed turn for `player`, from the world
/// at the close to the world at the loop's next rest: the player's
/// "current turn" marker is gone, the player's own hand and deck are
/// exactly as they were, and every card that was in some hand is still
/// there — ending a turn never plays or loses cards.
pub open spec fn turn_closed(w0: System, w1: System, player: PlayerId) -> bool {
    &&& forall|p2: PlayerId| #[trigger] w1.player_entity_ids(p2) == w0.player_entity_ids(p2)
    &&& w1.current_turns().at(w0.player_entity(player)) is None
    &&& w1.hand_count(player) == w0.hand_count(player)
    &&& w1.deck_seq(player) == w0.deck_seq(player)
    &&& forall|i: int| #[trigger]
        w0.in_hands().at(i) is Some ==> w1.in_hands().at(i) == w0.in_hands().at(i)
}

/// The chosen card was played and executed, in that order: first its
/// hand marker was removed, then its registry skills resolved; the world
/// then either rests mid-turn or the turn was closed.
pub open spec fn played_card(
    reg: Registry,
    w0: System,
    w2: System,
    player: PlayerId,
    card_entity: u32,
    card_id: u32,
) -> bool {
    exists|e: Entity, wm: System, wx: System|
        {
            &&& e@ == card_entity
            &&& #[trigger] (PlayCard { player, card: e }).post(reg, w0, wm, ())
            &&& #[trigger] (ExecuteCard { player, card_id: CardId(card_id) }).post(
                reg,
                wm,
                wx,
                (),
            )
            &&& (w2 == wx || turn_closed(wx, w2, player))
        }
}

/// What a play request for `entity` did, by validation outcome: an
/// entity that is no card, or a card without a registered cost, is a
/// silent no-op; a card with a cost above zero starts the payment
/// sub-protocol with nothing performed yet — the cost requirement is
/// never silently dropped; a free card is played and executed.
pub open spec fn play_attempted(
    reg: Registry,
    pre: Room,
    post: Room,
    player: PlayerId,
    entity: u32,
) -> bool {
    let w0 = pre.spec_world();
    let w1 = post.spec_world();
    match w0.card_ids().at(entity as int) {
        None => w1 == w0 || turn_closed(w0, w1, player),
        Some(c) => {
            let cost = (if reg.spec_cards().contains_key(c.0) {
                reg.spec_cards()[c.0].spec_cost()
            } else {
                None
            });
            match cost {
                None => w1 == w0 || turn_closed(w0, w1, player),
                Some(amount) => if amount > 0 {
                    &&& w1 == w0
                    &&& post.spec_flow() matches Flow::AwaitCost {
                        player: p2,
                        card_entity: ce,
                        card_id: ci,
                        ..
                    } && p2 == player && ce == entity && ci == c.0
                } else {
                    played_card(reg, w0, w1, player, entity, c.0)
                },
            }
        },
    }
}

/// Whenever the loop comes to rest at an awaited request, that request
/// was freshly published: the awaited player's channel grew.
pub open spec fn fresh_request_published(pre: Room, post: Room) -> bool {
    match post.spec_flow() {
        Flow::AwaitTurnAction { player, .. } => post.events(player).len() > pre.events(
            player,
        ).len(),
        Flow::AwaitCost { player, .. } => post.events(player).len() > pre.events(player).len(),
        _ => true,
    }
}

/// The loop reached its next rest: either a freshly published request is
/// awaited — owning its sequence-number slot, remembered for replay, and
/// with the awaited player's turn in progress (marker set, timer
/// running) — or the loop is done: the game marked finished, every slot
/// free, and nothing remembered.
pub open spec fn next_rest(pre: Room, post: Room) -> bool {
    match post.spec_flow() {
        Flow::AwaitTurnAction { player, seqnum } => {
            &&& post.slot_occupied(seqnum as int)
            &&& post.pending(player) matches Some(r) && r.seqnum == seqnum as u64
            &&& post.events(player).len() > pre.events(player).len()
            &&& post.spec_world().current_turns().at(
                post.spec_world().player_entity(player),
            ) is Some
            &&& post.spec_world().spec_timer() is Some
        },
        Flow::AwaitCost { player, seqnum, .. } => {
            &&& post.slot_occupied(seqnum as int)
            &&& post.pending(player) matches Some(r) && r.seqnum == seqnum as u64
            &&& post.events(player).len() > pre.events(player).len()
            &&& post.spec_world().current_turns().at(
                post.spec_world().player_entity(player),
            ) is Some
            &&& post.spec_world().spec_timer() is Some
        },
        Flow::Done => {
            &&& post.spec_world().spec_game() matches Some(g) && g.finished
            &&& forall|i: int| !post.slot_occupied(i)
            &&& post.pending(PlayerId::Player0) is None
            &&& post.pending(PlayerId::Player1) is None
        },
        Flow::Idle => false,
    }
}

/// What resolving the awaited exchange under `seqnum` with `reply`
/// (`None` for "no answer") did: the awaited exchange was consumed and
/// the loop ran to its next rest; an end-turn choice, an ill-typed
/// reply, or no answer closed the turn, a play request followed the
/// validation outcomes, and a paid cost played the card.
pub open spec fn resolution_of(
    reg: Registry,
    pre: Room,
    post: Room,
    seqnum: usize,
    reply: Option<UserEventType>,
) -> bool {
    match pre.spec_flow() {
        Flow::AwaitTurnAction { player, seqnum: s } => {
            &&& s == seqnum
            &&& next_rest(pre, post)
            &&& match reply {
                Some(UserEventType::PlayCard(ev)) => play_attempted(
                    reg,
                    pre,
                    post,
                    player,
                    ev.entity,
                ),
                _ => turn_closed(pre.spec_world(), post.spec_world(), player),
            }
        },
        Flow::AwaitCost { player, seqnum: s, card_entity, card_id } => {
            &&& s == seqnum
            &&& next_rest(pre, post)
            &&& match reply {
                Some(UserEventType::PayCost(_)) => played_card(
                    reg,
                    pre.spec_world(),
                    post.spec_world(),
                    player,
                    card_entity,
                    card_id,
                ),
                _ => turn_closed(pre.spec_world(), post.spec_world(), player),
            }
        },
        _ => false,
    }
}

/// Once the loop has reached its terminal rest, no reply can drive it
/// further: the game was marked finished exactly once, every
/// sequence-number slot is free, and any submitted reply is answered
/// "not found" and changes nothing.
pub proof fn finished_loop_refuses_replies(
    pre: Room,
    post: Room,
    seqnum: usize,
    r: Result<(), RoomError>,
)
    requires
        pre.inv(),
        pre.spec_flow() is Done,
        submit_step(pre, post, seqnum, r),
    ensures
        r == Err::<(), RoomError>(RoomError::NotFound),
        post == pre,
{
}

impl Room {
    /// Runs the loop from the start until it first needs a player's
    /// decision: initialize, then open player 0's turn.
    ///
    /// Started exactly once, when the room transitions to `Playing`.
    pub fn main_loop(&mut self, registry: &Registry, now: u64)
        requires
            old(self).slots_wf(),
            forall|i: int| !old(self).slot_occupied(i),
            old(self).spec_state() matches RoomState::Playing(g) && g.p0_username@
                != g.p1_username@,
            old(self).spec_flow() is Idle,
            old(self).pending(PlayerId::Player0) is None,
            old(self).pending(PlayerId::Player1) is None,
        ensures
            final(self).inv(),
            final(self).spec_state() is Playing,
            final(self).spec_flow() matches Flow::AwaitTurnAction { player: p2, .. } && p2
                == PlayerId::Player0,
            next_rest(*old(self), *final(self)),
            final(self).spec_state()->Playing_0.p0_username@ == old(
                self,
            ).spec_state()->Playing_0.p0_username@,
            final(self).spec_state()->Playing_0.p1_username@ == old(
                self,
            ).spec_state()->Playing_0.p1_username@,
            final(self).spec_world().spec_game() == Some(
                GameState { round: 0u32, finished: false },
            ),
            final(self).spec_world().hand_count(PlayerId::Player0) == 1,
            final(self).spec_world().deck_count(PlayerId::Player0) == 29,
            final(self).spec_world().hand_count(PlayerId::Player1) == 0,
            final(self).spec_world().deck_count(PlayerId::Player1) == 30,
            final(self).spec_world().current_turns().at(
                final(self).spec_world().player_entity(PlayerId::Player0),
            ) is Some,
            final(self).spec_world().spec_timer() is Some,
    {
        let _ = self.perform(&Initalize, registry);
        let ghost wi = self.spec_world();
        proof {
            assert(self.inv());
        }
        self.begin_turn(PlayerId::Player0, registry, now);
        proof {
            let w1 = self.spec_world();
            assert(w1.player_entity_ids(PlayerId::Player0) == wi.player_entity_ids(
                PlayerId::Player0,
            ));
            assert(w1.deck_count(PlayerId::Player1) == wi.deck_seq(PlayerId::Player1).len());
        }
    }

    /// Opens a turn: tags the player, draws one card, and asks for the
    /// first turn action.
    fn begin_turn(&mut self, player: PlayerId, registry: &Registry, now: u64)
        requires
            old(self).inv(),
            old(self).spec_state() is Playing,
            forall|i: int| !old(self).slot_occupied(i),
        ensures
            final(self).inv(),
            final(self).spec_state() is Playing,
            final(self).spec_flow() matches Flow::AwaitTurnAction { player: p2, .. } && p2
                == player,
            forall|p: PlayerId| #[trigger] final(self).events(p).len() >= old(self).events(
                p,
            ).len(),
            fresh_request_published(*old(self), *final(self)),
            final(self).spec_state()->Playing_0.p0_username@ == old(
                self,
            ).spec_state()->Playing_0.p0_username@,
            final(self).spec_state()->Playing_0.p1_username@ == old(
                self,
            ).spec_state()->Playing_0.p1_username@,
            forall|p2: PlayerId| #[trigger] final(self).spec_world().player_entity_ids(p2)
                == old(self).spec_world().player_entity_ids(p2),
            final(self).spec_world().current_turns().at(
                old(self).spec_world().player_entity(player),
            ) is Some,
            forall|i: int|
                i != old(self).spec_world().player_entity(player)
                    ==> #[trigger] final(self).spec_world().current_turns().at(i) == old(self).spec_world().current_turns().at(i),
            forall|i: int| #[trigger]
                old(self).spec_world().in_hands().at(i) is Some ==> final(self).spec_world().in_hands().at(i) == old(self).spec_world().in_hands().at(i),
            final(self).spec_world().hand_count(player) == old(self).spec_world().hand_count(
                player,
            ) + (if old(self).spec_world().deck_count(player) >= 1 {
                1int
            } else {
                0int
            }),
            final(self).spec_world().deck_count(player) == old(self).spec_world().deck_count(
                player,
            ) - (if old(self).spec_world().deck_count(player) >= 1 {
                1int
            } else {
                0int
            }),
            final(self).spec_world().hand_count(player.spec_opp()) == old(self).spec_world().hand_count(player.spec_opp()),
            final(self).spec_world().deck_seq(player.spec_opp()) == old(self).spec_world().deck_seq(player.spec_opp()),
            final(self).spec_world().spec_game() == old(self).spec_world().spec_game(),
            final(self).spec_world().spec_timer() is Some,
    {
        let ghost w0 = self.spec_world();
        let _ = self.perform(&StartTurn { player, now }, registry);
        let ghost ws = self.spec_world();
        proof {
            assert(self.inv());
        }
        let _ = self.perform(&DrawCards { player, count: 1 }, registry);
        let ghost wd = self.spec_world();
        proof {
            assert(self.inv());
            assert(ws.deck_seq(player) == w0.deck_seq(player));
            assert(wd.deck_seq(player) == ws.deck_seq(player).take(
                ws.deck_count(player) - (DrawCards { player, count: 1 }).drawn(ws),
            ));
            assert forall|i: int| #[trigger]
                w0.in_hands().at(i) is Some implies wd.in_hands().at(i) == w0.in_hands().at(
                i,
            ) by {
                assert(ws.in_hands().at(i) == w0.in_hands().at(i));
            }
            assert forall|i: int|
                i != w0.player_entity(player) implies #[trigger] wd.current_turns().at(i)
                == w0.current_turns().at(i) by {
                assert(wd.current_turns().at(i) == ws.current_turns().at(i));
            }
        }
        self.issue_turn_request(player, registry, now);
    }

    /// Publishes a request for the player's next turn action. Callers
    /// only ask while turn time remains; expiry ends the turn instead.
    fn issue_turn_request(&mut self, player: PlayerId, registry: &Registry, now: u64)
        requires
            old(self).inv(),
            old(self).spec_state() matches RoomState::Playing(g) && g.world.current_turns().at(
                g.world.player_entity(player),
            ) is Some && g.world.spec_timer() is Some,
            forall|i: int| !old(self).slot_occupied(i),
        ensures
            final(self).inv(),
            final(self).spec_state() == old(self).spec_state(),
            final(self).spec_flow() matches Flow::AwaitTurnAction { player: p2, .. } && p2
                == player,
            forall|p: PlayerId| #[trigger] final(self).events(p).len() >= old(self).events(
                p,
            ).len(),
            fresh_request_published(*old(self), *final(self)),
    {
        proof {
            if let Flow::AwaitTurnAction { seqnum, .. } = old(self).spec_flow() {
                assert(old(self).slot_occupied(seqnum as int));
                assert(false);
            }
            if let Flow::AwaitCost { seqnum, .. } = old(self).spec_flow() {
                assert(old(self).slot_occupied(seqnum as int));
                assert(false);
            }
            assert(old(self).pending(player.spec_opp()) is None);
        }
        let playable_cards = self.playable_cards(player);
        let seqnum = self.request_user_event(
            player,
            RequestEventType::TurnAction(RequestTurnAction { playable_cards }),
        );
        self.set_flow(Flow::AwaitTurnAction { player, seqnum });
        proof {
            assert(self.inv());
        }
    }

    /// Closes the player's turn and hands control to the next turn, the
    /// next round, or — once both players' hands and decks are empty —
    /// to exactly one game-finished step.
    fn finish_turn(&mut self, player: PlayerId, registry: &Registry, now: u64)
        requires
            old(self).inv(),
            old(self).spec_state() is Playing,
            forall|i: int| !old(self).slot_occupied(i),
        ensures
            final(self).inv(),
            final(self).spec_state() is Playing,
            (final(self).spec_flow() matches Flow::AwaitTurnAction { player: p2, .. }
                && p2 == player.spec_opp()) || (player is Player1 && final(self).spec_flow()
                is Done),
            final(self).spec_flow() is Done ==> (final(self).spec_world().spec_game()
                matches Some(g) && g.finished),
            forall|p: PlayerId| #[trigger] final(self).events(p).len() >= old(self).events(
                p,
            ).len(),
            fresh_request_published(*old(self), *final(self)),
            turn_closed(old(self).spec_world(), final(self).spec_world(), player),
    {
        let ghost w0 = self.spec_world();
        let _ = self.perform(&EndTurn { player }, registry);
        let ghost we = self.spec_world();
        proof {
            assert(self.inv());
            crate::system::lemma_player_entities_distinct(we);
        }
        match player {
            PlayerId::Player0 => {
                self.begin_turn(PlayerId::Player1, registry, now);
                proof {
                    let w1 = self.spec_world();
                    assert forall|p2: PlayerId| #[trigger] w1.player_entity_ids(p2)
                        == w0.player_entity_ids(p2) by {
                        assert(we.player_entity_ids(p2) == w0.player_entity_ids(p2));
                    }
                    assert(we.player_entity_ids(PlayerId::Player0) == w0.player_entity_ids(
                        PlayerId::Player0,
                    ));
                    assert(we.player_entity_ids(PlayerId::Player1) == w0.player_entity_ids(
                        PlayerId::Player1,
                    ));
                    assert(w0.player_entity(player) != we.player_entity(PlayerId::Player1));
                    assert(w1.current_turns().at(w0.player_entity(player)) == we.current_turns().at(
                        w0.player_entity(player),
                    ));
                    assert(w1.hand_count(player) == we.hand_count(player));
                    assert(we.hand_count(player) == w0.hand_count(player)) by {
                        assert(we.in_hand_ids(player) == w0.in_hand_ids(player));
                    }
                    assert(w1.deck_seq(player) == we.deck_seq(player));
                    assert forall|i: int| #[trigger]
                        w0.in_hands().at(i) is Some implies w1.in_hands().at(i)
                        == w0.in_hands().at(i) by {
                        assert(we.in_hands().at(i) == w0.in_hands().at(i));
                    }
                    assert(turn_closed(w0, w1, player));
                }
            },
            PlayerId::Player1 => {
                if self.decks_empty() {
                    let _ = self.perform(&GameFinished, registry);
                    self.set_flow(Flow::Done);
                    proof {
                        assert(self.inv());
                        assert(turn_closed(w0, self.spec_world(), player));
                    }
                } else {
                    let round = self.round_of().unwrap();
                    if round < u32::MAX {
                        let _ = self.perform(&BumpRound, registry);
                        let ghost wb = self.spec_world();
                        proof {
                            assert(self.inv());
                        }
                        self.begin_turn(PlayerId::Player0, registry, now);
                        proof {
                            let w1 = self.spec_world();
                            assert forall|p2: PlayerId| #[trigger] wb.player_entity_ids(p2)
                                == w0.player_entity_ids(p2) by {
                                assert(we.player_entity_ids(p2) == w0.player_entity_ids(p2));
                                assert(wb.player_entity_ids(p2) == we.player_entity_ids(p2));
                            }
                            assert forall|p2: PlayerId| #[trigger] w1.player_entity_ids(p2)
                                == w0.player_entity_ids(p2) by {
                                assert(wb.player_entity_ids(p2) == w0.player_entity_ids(p2));
                            }
                            assert(wb.player_entity_ids(PlayerId::Player0)
                                == we.player_entity_ids(PlayerId::Player0));
                            assert(wb.player_entity_ids(PlayerId::Player1)
                                == we.player_entity_ids(PlayerId::Player1));
                            assert(w0.player_entity(player) != wb.player_entity(
                                PlayerId::Player0,
                            ));
                            assert(w1.current_turns().at(w0.player_entity(player))
                                == wb.current_turns().at(w0.player_entity(player)));
                            assert(wb.current_turns().at(w0.player_entity(player))
                                == we.current_turns().at(w0.player_entity(player)));
                            assert(w1.hand_count(player) == wb.hand_count(player));
                            assert(wb.hand_count(player) == w0.hand_count(player)) by {
                                assert(we.in_hand_ids(player) == w0.in_hand_ids(player));
                                assert(wb.in_hand_ids(player) == we.in_hand_ids(player));
                            }
                            assert(w1.deck_seq(player) == wb.deck_seq(player));
                            assert(wb.deck_seq(player) == we.deck_seq(player));
                            assert forall|i: int| #[trigger]
                                w0.in_hands().at(i) is Some implies w1.in_hands().at(i)
                                == w0.in_hands().at(i) by {
                                assert(we.in_hands().at(i) == w0.in_hands().at(i));
                                assert(wb.in_hands().at(i) == we.in_hands().at(i));
                            }
                            assert(turn_closed(w0, w1, player));
                        }
                    } else {
                        let _ = self.perform(&GameFinished, registry);
                        self.set_flow(Flow::Done);
                        proof {
                            assert(self.inv());
                            assert(turn_closed(w0, self.spec_world(), player));
                        }
                    }
                }
            },
        }
    }

    /// Plays and executes the chosen card, then asks for the next turn
    /// action while turn time remains.
    fn play_and_continue(
        &mut self,
        player: PlayerId,
        card_entity: u32,
        card_id: u32,
        registry: &Registry,
        now: u64,
    )
        requires
            old(self).inv(),
            old(self).spec_state() matches RoomState::Playing(g) && g.world.current_turns().at(
                g.world.player_entity(player),
            ) is Some && g.world.spec_timer() is Some,
            forall|i: int| !old(self).slot_occupied(i),
        ensures
            final(self).inv(),
            final(self).spec_state() is Playing,
            forall|p: PlayerId| #[trigger] final(self).events(p).len() >= old(self).events(
                p,
            ).len(),
            fresh_request_published(*old(self), *final(self)),
            !(final(self).spec_flow() is Idle),
            final(self).spec_flow() is Done ==> (final(self).spec_world().spec_game()
                matches Some(g) && g.finished),
            played_card(
                *registry,
                old(self).spec_world(),
                final(self).spec_world(),
                player,
                card_entity,
                card_id,
            ),
    {
        let ghost w0 = self.spec_world();
        let card = Entity::from_id(card_entity);
        let _ = self.perform(&PlayCard { player, card }, registry);
        proof {
            assert(self.inv());
        }
        let ghost wm = self.spec_world();
        let a = ExecuteCard { player, card_id: CardId(card_id) };
        let _ = self.perform(&a, registry);
        let ghost wx = self.spec_world();
        proof {
            lemma_execute_keeps_game_wf(a, *registry, wm, wx);
            assert(self.inv());
        }
        if self.turn_time_left(now) > 0 {
            self.issue_turn_request(player, registry, now);
            proof {
                assert((PlayCard { player, card }).post(*registry, w0, wm, ()));
                assert(self.spec_world() == wx);
                assert(played_card(
                    *registry,
                    w0,
                    self.spec_world(),
                    player,
                    card_entity,
                    card_id,
                ));
            }
        } else {
            self.finish_turn(player, registry, now);
            proof {
                assert((PlayCard { player, card }).post(*registry, w0, wm, ()));
                assert(turn_closed(wx, self.spec_world(), player));
                assert(played_card(
                    *registry,
                    w0,
                    self.spec_world(),
                    player,
                    card_entity,
                    card_id,
                ));
            }
        }
    }

    /// Handles the player's answer to a turn-action request; no answer,
    /// an end-turn choice, or an ill-typed reply all end the turn.
    fn handle_turn_action(
        &mut self,
        player: PlayerId,
        reply: Option<UserEventType>,
        registry: &Registry,
        now: u64,
    )
        requires
            old(self).inv(),
            old(self).spec_state() matches RoomState::Playing(g) && g.world.current_turns().at(
                g.world.player_entity(player),
            ) is Some && g.world.spec_timer() is Some,
            forall|i: int| !old(self).slot_occupied(i),
        ensures
            final(self).inv(),
            final(self).spec_state() is Playing,
            forall|p: PlayerId| #[trigger] final(self).events(p).len() >= old(self).events(
                p,
            ).len(),
            fresh_request_published(*old(self), *final(self)),
            !(final(self).spec_flow() is Idle),
            final(self).spec_flow() is Done ==> (final(self).spec_world().spec_game()
                matches Some(g) && g.finished),
            match reply {
                Some(UserEventType::PlayCard(ev)) => play_attempted(
                    *registry,
                    *old(self),
                    *final(self),
                    player,
                    ev.entity,
                ),
                _ => turn_closed(old(self).spec_world(), final(self).spec_world(), player),
            },
    {
        let action = match reply {
            Some(ev) => match turn_action_from_reply(ev) {
                Ok(a) => Some(a),
                Err(_) => None,
            },
            None => None,
        };
        match action {
            Some(TurnAction::PlayCard(play)) => {
                // Validate playability: the entity must be a known card
                // with a cost; a cost above zero starts the payment
                // sub-protocol first.
                match self.card_id_at(play.entity) {
                    Some(cid) => {
                        match registry.cost(CardId(cid)) {
                            Some(cost) => {
                                if cost > 0 {
                                    let provider_ids = self.faith_providers(player);
                                    let mut providers: Vec<CostProvider> = Vec::new();
                                    let mut i: usize = 0;
                                    while i < provider_ids.len()
                                        decreases provider_ids@.len() - i,
                                    {
                                        providers.push(
                                            CostProvider {
                                                entity: provider_ids[i],
                                                provided: Some(Cost { any: 1 }),
                                            },
                                        );
                                        i = i + 1;
                                    }
                                    let seqnum = self.request_user_event(
                                        player,
                                        RequestEventType::CostAction(
                                            RequestCostAction {
                                                cost: Some(Cost { any: cost }),
                                                providers,
                                            },
                                        ),
                                    );
                                    self.set_flow(
                                        Flow::AwaitCost {
                                            player,
                                            seqnum,
                                            card_entity: play.entity,
                                            card_id: cid,
                                        },
                                    );
                                    proof {
                                        assert(self.inv());
                                        assert(self.spec_world() == old(self).spec_world());
                                    }
                                } else {
                                    self.play_and_continue(
                                        player,
                                        play.entity,
                                        cid,
                                        registry,
                                        now,
                                    );
                                }
                            },
                            None => {
                                // Unknown or effect-free prototype: the
                                // play silently does nothing.
                                if self.turn_time_left(now) > 0 {
                                    self.issue_turn_request(player, registry, now);
                                } else {
                                    self.finish_turn(player, registry, now);
                                }
                            },
                        }
                    },
                    None => {
                        // The entity is not a card: silent no-op.
                        if self.turn_time_left(now) > 0 {
                            self.issue_turn_request(player, registry, now);
                        } else {
                            self.finish_turn(player, registry, now);
                        }
                    },
                }
            },
            Some(TurnAction::EndTurn(_)) | None => {
                self.finish_turn(player, registry, now);
            },
        }
    }

    /// Handles the player's answer to a cost request: payment plays the
    /// card; no answer or decline ends the turn at once rather than
    /// silently dropping the cost requirement.
    fn handle_cost_action(
        &mut self,
        player: PlayerId,
        card_entity: u32,
        card_id: u32,
        reply: Option<UserEventType>,
        registry: &Registry,
        now: u64,
    )
        requires
            old(self).inv(),
            old(self).spec_state() matches RoomState::Playing(g) && g.world.current_turns().at(
                g.world.player_entity(player),
            ) is Some && g.world.spec_timer() is Some,
            forall|i: int| !old(self).slot_occupied(i),
        ensures
            final(self).inv(),
            final(self).spec_state() is Playing,
            forall|p: PlayerId| #[trigger] final(self).events(p).len() >= old(self).events(
                p,
            ).len(),
            fresh_request_published(*old(self), *final(self)),
            !(final(self).spec_flow() is Idle),
            final(self).spec_flow() is Done ==> (final(self).spec_world().spec_game()
                matches Some(g) && g.finished),
            match reply {
                Some(UserEventType::PayCost(_)) => played_card(
                    *registry,
                    old(self).spec_world(),
                    final(self).spec_world(),
                    player,
                    card_entity,
                    card_id,
                ),
                _ => turn_closed(old(self).spec_world(), final(self).spec_world(), player),
            },
    {
        let paid = match reply {
            Some(ev) => match pay_cost_from_reply(ev) {
                Ok(p) => Some(p),
                Err(_) => None,
            },
            None => None,
        };
        match paid {
            Some(_) => {
                self.play_and_continue(player, card_entity, card_id, registry, now);
            },
            None => {
                self.finish_turn(player, registry, now);
            },
        }
    }

    /// Resolves the awaited request under `seqnum` with `reply` (`None`
    /// for "no answer"): frees the sequence-number slot, clears the
    /// remembered pending request, and runs the loop to its next rest.
    fn resolve(
        &mut self,
        seqnum: usize,
        reply: Option<UserEventType>,
        registry: &Registry,
        now: u64,
    )
        requires
            old(self).inv(),
        ensures
            final(self).inv(),
            !old(self).slot_occupied(seqnum as int) ==> *final(self) == *old(self),
            old(self).slot_occupied(seqnum as int) ==> resolution_of(
                *registry,
                *old(self),
                *final(self),
                seqnum,
                reply,
            ),
    {
        let ghost greply = reply;
        if !self.has_request(seqnum) {
            return ;
        }
        match self.current_flow() {
            Flow::AwaitTurnAction { player, seqnum: s } => {
                proof {
                    if s != seqnum {
                        assert(!old(self).slot_occupied(seqnum as int));
                        assert(false);
                    }
                }
                if s == seqnum {
                    self.clear_request(player, seqnum);
                    self.set_flow(Flow::Idle);
                    let ghost wc = *self;
                    proof {
                        assert(forall|i: int| !self.slot_occupied(i));
                        assert(self.inv());
                        assert(wc.spec_world() == old(self).spec_world());
                        assert(forall|p: PlayerId| #[trigger] wc.events(p) == old(self).events(p));
                    }
                    self.handle_turn_action(player, reply, registry, now);
                    proof {
                        assert(next_rest(*old(self), *self)) by {
                            if let Flow::AwaitTurnAction { player: p2, seqnum: s2 } =
                                self.spec_flow() {
                                assert(self.events(p2).len() > wc.events(p2).len());
                            }
                            if let Flow::AwaitCost { player: p2, seqnum: s2, .. } =
                                self.spec_flow() {
                                assert(self.events(p2).len() > wc.events(p2).len());
                            }
                        }
                        if let Some(UserEventType::PlayCard(ev)) = greply {
                            assert(play_attempted(*registry, wc, *self, player, ev.entity));
                            assert(wc.spec_world() == old(self).spec_world());
                            assert(play_attempted(*registry, *old(self), *self, player, ev.entity));
                        }
                    }
                }
            },
            Flow::AwaitCost { player, seqnum: s, card_entity, card_id } => {
                proof {
                    if s != seqnum {
                        assert(!old(self).slot_occupied(seqnum as int));
                        assert(false);
                    }
                }
                if s == seqnum {
                    self.clear_request(player, seqnum);
                    self.set_flow(Flow::Idle);
                    let ghost wc = *self;
                    proof {
                        assert(forall|i: int| !self.slot_occupied(i));
                        assert(self.inv());
                        assert(wc.spec_world() == old(self).spec_world());
                        assert(forall|p: PlayerId| #[trigger] wc.events(p) == old(self).events(p));
                    }
                    self.handle_cost_action(player, card_entity, card_id, reply, registry, now);
                    proof {
                        assert(next_rest(*old(self), *self)) by {
                            if let Flow::AwaitTurnAction { player: p2, seqnum: s2 } =
                                self.spec_flow() {
                                assert(self.events(p2).len() > wc.events(p2).len());
                            }
                            if let Flow::AwaitCost { player: p2, seqnum: s2, .. } =
                                self.spec_flow() {
                                assert(self.events(p2).len() > wc.events(p2).len());
                            }
                        }
                    }
                }
            },
            _ => {
                proof {
                    assert(!old(self).slot_occupied(seqnum as int));
                    assert(false);
                }
            },
        }
    }

    /// Delivers a player's reply to the outstanding request under
    /// `seqnum`: an outstanding number is always accepted, consuming the
    /// exchange and running the loop to its next rest; an unknown,
    /// expired, or already-consumed number is reported as "not found",
    /// never silently ignored.
    pub fn submit_user_event(
        &mut self,
        seqnum: usize,
        event: UserEventType,
        registry: &Registry,
        now: u64,
    ) -> (r: Result<(), RoomError>)
        requires
            old(self).inv(),
        ensures
            final(self).inv(),
            submit_step(*old(self), *final(self), seqnum, r),
            r is Ok ==> resolution_of(
                *registry,
                *old(self),
                *final(self),
                seqnum,
                Some(event),
            ),
    {
        if !self.has_request(seqnum) {
            return Err(RoomError::NotFound);
        }
        self.resolve(seqnum, Some(event), registry, now);
        Ok(())
    }

    /// Expires the outstanding request under `seqnum`: frees its slot,
    /// clears the remembered pending request, and resolves the waiting
    /// loop step as "no answer" (an implicit end of turn), distinct from
    /// a decline.
    pub fn timeout_user_event(&mut self, seqnum: usize, registry: &Registry, now: u64)
        requires
            old(self).inv(),
        ensures
            final(self).inv(),
            !old(self).slot_occupied(seqnum as int) ==> *final(self) == *old(self),
            old(self).slot_occupied(seqnum as int) ==> resolution_of(
                *registry,
                *old(self),
                *final(self),
                seqnum,
                None,
            ),
    {
        self.resolve(seqnum, None, registry, now);
    }
}

} // verus!
