//! The room: owns one game's lifecycle, the request/response correlation
//! table, per-player event queues, and pending-request replay.

use vstd::prelude::*;

use crate::action::Action;
use crate::card::{InHand, Registry};
use crate::events::{
    dup_request, payload_eq, req_eq, GameEvent, RequestEventType, RequestUserEvent, Snapshot,
};
use crate::player::PlayerId;
use crate::store::{ids_where, Entity};
use crate::system::{Component, ComponentKind, Exact, Query, System};

verus! {

/// A sparse, slot-reusing table of outstanding requests: an arena of
/// occupancy flags plus a free-list of reclaimed indices.
pub struct SlotTable {
    slots: Vec<bool>,
    free: Vec<usize>,
}

impl SlotTable {
    /// Whether sequence number `i` has an outstanding entry.
    pub closed spec fn occupied(self, i: int) -> bool {
        0 <= i < self.slots@.len() && self.slots@[i]
    }

    /// Free-list entries point at unoccupied slots, each at most once.
    pub closed spec fn wf(self) -> bool {
        &&& forall|j: int|
            0 <= j < self.free@.len() ==> (#[trigger] self.free@[j]) < self.slots@.len()
                && !self.slots@[self.free@[j] as int]
        &&& forall|j1: int, j2: int|
            0 <= j1 < j2 < self.free@.len() ==> #[trigger] self.free@[j1] != #[trigger] self.free@[j2]
    }

    pub fn new() -> (r: SlotTable)
        ensures
            r.wf(),
            forall|i: int| !r.occupied(i),
    {
        SlotTable { slots: Vec::new(), free: Vec::new() }
    }

    /// Claims a sequence number: a reclaimed one if any, else a fresh one.
    pub fn insert(&mut self) -> (seqnum: usize)
        requires
            old(self).wf(),
        ensures
            final(self).wf(),
            !old(self).occupied(seqnum as int),
            final(self).occupied(seqnum as int),
            forall|i: int|
                i != seqnum as int ==> #[trigger] final(self).occupied(i) == old(self).occupied(i),
    {
        match self.free.pop() {
            Some(idx) => {
                self.slots[idx] = true;
                idx
            },
            None => {
                let idx = self.slots.len();
                self.slots.push(true);
                idx
            },
        }
    }

    /// Removes the entry under `i`, reporting whether one existed; the
    /// slot can then be claimed again.
    pub fn take(&mut self, i: usize) -> (r: bool)
        requires
            old(self).wf(),
        ensures
            final(self).wf(),
            r == old(self).occupied(i as int),
            !final(self).occupied(i as int),
            forall|i2: int|
                i2 != i as int ==> #[trigger] final(self).occupied(i2) == old(self).occupied(i2),
    {
        if i < self.slots.len() && self.slots[i] {
            self.slots[i] = false;
            self.free.push(i);
            true
        } else {
            false
        }
    }

    pub fn contains(&self, i: usize) -> (r: bool)
        ensures
            r == self.occupied(i as int),
    {
        i < self.slots.len() && self.slots[i]
    }
}

/// Room lifecycle states.
pub enum RoomState {
    /// One player has joined and waits for an opponent.
    Waiting { p0_username: String },
    /// Two players are matched and the game runs.
    Playing(PlayingGame),
    /// The game loop has terminated; terminal.
    Finished,
}

/// The authoritative match owned by a playing room.
pub struct PlayingGame {
    pub p0_username: String,
    pub p1_username: String,
    pub world: System,
}

/// Where the game loop stands: between turns it is synchronous, so the
/// only resting places are the two kinds of awaited replies.
#[derive(Debug, Clone, Copy, PartialEq, Eq, Structural)]
pub enum Flow {
    /// No request is outstanding: the loop has not started, or it is
    /// between requests deciding its next step.
    Idle,
    /// Waiting for the player's chosen turn action.
    AwaitTurnAction { player: PlayerId, seqnum: usize },
    /// Waiting for the player to pay the cost of `card_entity`.
    AwaitCost { player: PlayerId, seqnum: usize, card_entity: u32, card_id: u32 },
    /// The loop has terminated.
    Done,
}

/// The advisory countdown published with each request, in seconds: what
/// a client may show. The server's own expiry budget is enforced outside
/// and must be at least one tick longer, so a client never observes a
/// server-side expiry before its own.
pub const ADVISORY_SECONDS: u64 = 20;


/// What opening a player's event stream does: the remembered pending
/// request, if any, is re-delivered verbatim first, then one fresh
/// snapshot of the current world is published to each player; the
/// correlation table, the remembered request, and the room state are
/// untouched, so no second outstanding request is created.
pub open spec fn entered(pre: Room, post: Room, p: PlayerId) -> bool {
    &&& post.spec_state() == pre.spec_state()
    &&& post.spec_flow() == pre.spec_flow()
    &&& forall|p2: PlayerId| #[trigger] post.pending(p2) == pre.pending(p2)
    &&& forall|i: int| #[trigger] post.slot_occupied(i) == pre.slot_occupied(i)
    &&& post.events(p).subrange(0, pre.events(p).len() as int) == pre.events(p)
    &&& if pre.spec_state() is Playing {
        let w = pre.spec_world();
        &&& post.events(p).len() == pre.events(p).len() + (if pre.pending(p) is Some {
            1int
        } else {
            0int
        }) + 1
        &&& (pre.pending(p) matches Some(req) ==> post.events(p)[pre.events(p).len() as int]
            matches GameEvent::RequestUserEvent(r2) && req_eq(req, r2))
        &&& post.events(p).last() matches GameEvent::StateUpdate(snap) && snapshot_matches(
            snap,
            w,
            p,
        )
        &&& post.events(p.spec_opp()).len() == pre.events(p.spec_opp()).len() + 1
        &&& post.events(p.spec_opp()).last() matches GameEvent::StateUpdate(snap2)
            && snapshot_matches(snap2, w, p.spec_opp())
    } else {
        &&& post.events(p).len() == pre.events(p).len() + (if pre.pending(p) is Some {
            1int
        } else {
            0int
        })
        &&& (pre.pending(p) matches Some(req) ==> post.events(p)[pre.events(p).len() as int]
            matches GameEvent::RequestUserEvent(r2) && req_eq(req, r2))
        &&& post.events(p.spec_opp()) == pre.events(p.spec_opp())
    }
}

/// Distinct, named reasons a room or the manager refuses a caller.
#[derive(Debug, Clone, Copy, PartialEq, Eq, Structural)]
pub enum RoomError {
    /// The caller's username occupies no player slot of this room.
    NotAPlayer,
    /// The submitted sequence number has no outstanding request.
    NotFound,
    /// The room holds no running game.
    GameNotInProgress,
    /// No room exists under the given identifier.
    RoomNotFound,
}

pub struct Room {
    pub(crate) state: RoomState,
    pub(crate) flow: Flow,
    pub(crate) p0_events: Vec<GameEvent>,
    pub(crate) p1_events: Vec<GameEvent>,
    pub(crate) user_events: SlotTable,
    pub(crate) p0_pending_event: Option<RequestUserEvent>,
    pub(crate) p1_pending_event: Option<RequestUserEvent>,
}

impl Room {
    pub closed spec fn spec_state(self) -> RoomState {
        self.state
    }

    pub closed spec fn spec_flow(self) -> Flow {
        self.flow
    }

    pub closed spec fn events(self, p: PlayerId) -> Seq<GameEvent> {
        match p {
            PlayerId::Player0 => self.p0_events@,
            PlayerId::Player1 => self.p1_events@,
        }
    }

    pub closed spec fn pending(self, p: PlayerId) -> Option<RequestUserEvent> {
        match p {
            PlayerId::Player0 => self.p0_pending_event,
            PlayerId::Player1 => self.p1_pending_event,
        }
    }

    pub closed spec fn slot_occupied(self, i: int) -> bool {
        self.user_events.occupied(i)
    }

    pub closed spec fn slots_wf(self) -> bool {
        self.user_events.wf()
    }

    /// The running world, when there is one.
    pub open spec fn spec_world(self) -> System
        recommends
            self.spec_state() is Playing,
    {
        self.spec_state()->Playing_0.world
    }

    /// Room-wide invariant: the slot table is sound; a running game is
    /// well formed between steps; the two player slots are distinct; an
    /// awaited request owns exactly the one occupied slot and is
    /// remembered for replay.
    pub open spec fn inv(self) -> bool {
        &&& self.slots_wf()
        &&& self.spec_state() is Waiting ==> self.spec_flow() is Idle
        &&& self.spec_state() matches RoomState::Playing(g) ==> g.world.game_wf()
            && g.p0_username@ != g.p1_username@
        &&& match self.spec_flow() {
            Flow::Idle | Flow::Done => {
                &&& forall|i: int| !self.slot_occupied(i)
                &&& self.pending(PlayerId::Player0) is None
                &&& self.pending(PlayerId::Player1) is None
            },
            Flow::AwaitTurnAction { player, seqnum } => {
                &&& self.spec_state() matches RoomState::Playing(g) && g.world.current_turns().at(
                    g.world.player_entity(player),
                ) is Some && g.world.spec_timer() is Some
                &&& self.slot_occupied(seqnum as int)
                &&& forall|i: int| i != seqnum as int ==> !self.slot_occupied(i)
                &&& self.pending(player) matches Some(r) && r.seqnum == seqnum
                &&& self.pending(player.spec_opp()) is None
            },
            Flow::AwaitCost { player, seqnum, .. } => {
                &&& self.spec_state() matches RoomState::Playing(g) && g.world.current_turns().at(
                    g.world.player_entity(player),
                ) is Some && g.world.spec_timer() is Some
                &&& self.slot_occupied(seqnum as int)
                &&& forall|i: int| i != seqnum as int ==> !self.slot_occupied(i)
                &&& self.pending(player) matches Some(r) && r.seqnum == seqnum
                &&& self.pending(player.spec_opp()) is None
            },
        }
    }

    /// A fresh room owned by its first player, waiting for an opponent.
    pub fn new(p0_username: String) -> (r: Room)
        ensures
            r.inv(),
            r.spec_state() matches RoomState::Waiting { p0_username: n } && n@ == p0_username@,
            r.spec_flow() is Idle,
            r.events(PlayerId::Player0).len() == 0,
            r.events(PlayerId::Player1).len() == 0,
            r.pending(PlayerId::Player0) is None,
            r.pending(PlayerId::Player1) is None,
            forall|i: int| !r.slot_occupied(i),
    {
        Room {
            state: RoomState::Waiting { p0_username },
            flow: Flow::Idle,
            p0_events: Vec::new(),
            p1_events: Vec::new(),
            user_events: SlotTable::new(),
            p0_pending_event: None,
            p1_pending_event: None,
        }
    }

    /// Whether `username` occupies a player slot of this room.
    pub fn check_in_room(&self, username: &String) -> (r: bool)
        ensures
            r == match self.spec_state() {
                RoomState::Waiting { p0_username } => p0_username@ == username@,
                RoomState::Playing(g) => g.p0_username@ == username@ || g.p1_username@
                    == username@,
                RoomState::Finished => false,
            },
    {
        match &self.state {
            RoomState::Waiting { p0_username } => p0_username.eq(username),
            RoomState::Playing(g) => g.p0_username.eq(username) || g.p1_username.eq(username),
            RoomState::Finished => false,
        }
    }

    /// Resolves a username to the player slot it occupies.
    pub fn get_player(&self, username: &String) -> (r: Result<PlayerId, RoomError>)
        ensures
            r == match self.spec_state() {
                RoomState::Waiting { p0_username } => if p0_username@ == username@ {
                    Ok::<PlayerId, RoomError>(PlayerId::Player0)
                } else {
                    Err::<PlayerId, RoomError>(RoomError::NotAPlayer)
                },
                RoomState::Playing(g) => if g.p0_username@ == username@ {
                    Ok::<PlayerId, RoomError>(PlayerId::Player0)
                } else if g.p1_username@ == username@ {
                    Ok::<PlayerId, RoomError>(PlayerId::Player1)
                } else {
                    Err::<PlayerId, RoomError>(RoomError::NotAPlayer)
                },
                RoomState::Finished => Err::<PlayerId, RoomError>(RoomError::NotAPlayer),
            },
    {
        match &self.state {
            RoomState::Waiting { p0_username } => {
                if p0_username.eq(username) {
                    Ok(PlayerId::Player0)
                } else {
                    Err(RoomError::NotAPlayer)
                }
            },
            RoomState::Playing(g) => {
                if g.p0_username.eq(username) {
                    Ok(PlayerId::Player0)
                } else if g.p1_username.eq(username) {
                    Ok(PlayerId::Player1)
                } else {
                    Err(RoomError::NotAPlayer)
                }
            },
            RoomState::Finished => Err(RoomError::NotAPlayer),
        }
    }

    /// Reads the event published at position `i` of the player's channel.
    pub fn event_at(&self, p: PlayerId, i: usize) -> (r: Option<&GameEvent>)
        ensures
            match r {
                Some(ev) => i < self.events(p).len() && *ev == self.events(p)[i as int],
                None => i >= self.events(p).len(),
            },
    {
        let q = match p {
            PlayerId::Player0 => &self.p0_events,
            PlayerId::Player1 => &self.p1_events,
        };
        if i < q.len() {
            Some(&q[i])
        } else {
            None
        }
    }

    /// How many events the player's channel has carried.
    pub fn event_count(&self, p: PlayerId) -> (r: usize)
        ensures
            r == self.events(p).len(),
    {
        match p {
            PlayerId::Player0 => self.p0_events.len(),
            PlayerId::Player1 => self.p1_events.len(),
        }
    }

    /// Re-delivers the remembered pending request to a reconnecting
    /// player, verbatim, without creating a second outstanding request:
    /// the correlation table and the remembered request are untouched.
    pub fn send_pending_event(&mut self, username: &String) -> (r: Result<(), RoomError>)
        ensures
            r is Err ==> *final(self) == *old(self),
            final(self).spec_state() == old(self).spec_state(),
            final(self).spec_flow() == old(self).spec_flow(),
            forall|p: PlayerId| #[trigger] final(self).pending(p) == old(self).pending(p),
            forall|i: int| #[trigger] final(self).slot_occupied(i) == old(self).slot_occupied(i),
            old(self).inv() ==> final(self).inv(),
            r is Ok ==> match old(self).get_player_spec(username@) {
                Some(p) => {
                    &&& (old(self).pending(p) matches Some(req) ==> {
                        &&& final(self).events(p).len() == old(self).events(p).len() + 1
                        &&& final(self).events(p).subrange(
                            0,
                            old(self).events(p).len() as int,
                        ) == old(self).events(p)
                        &&& final(self).events(p).last() matches GameEvent::RequestUserEvent(r2)
                            && req_eq(req, r2)
                        &&& final(self).events(p.spec_opp()) == old(self).events(p.spec_opp())
                    })
                    &&& (old(self).pending(p) is None ==> final(self).events(p) == old(
                        self,
                    ).events(p) && final(self).events(p.spec_opp()) == old(self).events(
                        p.spec_opp(),
                    ))
                },
                None => false,
            },
            r is Err <==> old(self).get_player_spec(username@) is None,
    {
        let player = match self.get_player(username) {
            Ok(p) => p,
            Err(e) => {
                return Err(e);
            },
        };
        let dup = match player {
            PlayerId::Player0 => match &self.p0_pending_event {
                Some(req) => Some(dup_request(req)),
                None => None,
            },
            PlayerId::Player1 => match &self.p1_pending_event {
                Some(req) => Some(dup_request(req)),
                None => None,
            },
        };
        match dup {
            Some(req) => {
                proof {
                    let p = player;
                    let pend = self.pending(p).unwrap();
                    assert(req_eq(pend, req));
                }
                match player {
                    PlayerId::Player0 => self.p0_events.push(GameEvent::RequestUserEvent(req)),
                    PlayerId::Player1 => self.p1_events.push(GameEvent::RequestUserEvent(req)),
                }
                proof {
                    let p = player;
                    assert(self.events(p).subrange(0, old(self).events(p).len() as int) =~= old(
                        self,
                    ).events(p));
                }
            },
            None => {},
        }
        proof {
            assert forall|i: int| #[trigger] self.slot_occupied(i) == old(self).slot_occupied(
                i,
            ) by {}
        }
        Ok(())
    }

    /// The slot a username resolves to, as a specification value.
    pub open spec fn get_player_spec(self, username: Seq<char>) -> Option<PlayerId> {
        match self.spec_state() {
            RoomState::Waiting { p0_username } => if p0_username@ == username {
                Some(PlayerId::Player0)
            } else {
                None
            },
            RoomState::Playing(g) => if g.p0_username@ == username {
                Some(PlayerId::Player0)
            } else if g.p1_username@ == username {
                Some(PlayerId::Player1)
            } else {
                None
            },
            RoomState::Finished => None,
        }
    }
}


/// The entities in `p`'s hand that are cards, in ascending order.
pub open spec fn hand_ids_with_cards(w: System, p: PlayerId) -> Seq<u32> {
    ids_where(
        |i: int| w.card_ids().at(i) is Some && w.in_hands().at(i) == Some(InHand(p)),
        w.spec_entity_counter() as int,
    )
}

/// The card numbers in `p`'s hand, in ascending entity order.
pub open spec fn hand_card_numbers(w: System, p: PlayerId) -> Seq<u32> {
    hand_ids_with_cards(w, p).map_values(
        |id: u32|
            match w.card_ids().at(id as int) {
                Some(c) => c.0,
                None => 0u32,
            },
    )
}

/// The player's deck size, zero when the game holds no entity for `p`.
pub open spec fn spec_deck_len(w: System, p: PlayerId) -> int {
    if w.player_entity_ids(p).len() > 0 {
        w.deck_seq(p).len() as int
    } else {
        0
    }
}

/// Whether it is `p`'s turn.
pub open spec fn spec_is_turn(w: System, p: PlayerId) -> bool {
    w.player_entity_ids(p).len() > 0 && w.current_turns().at(w.player_entity(p)) is Some
}

/// The recorded log lines, empty when no log resource exists.
pub open spec fn spec_log_lines(w: System) -> Seq<String> {
    match w.spec_log() {
        Some(l) => l.entries@,
        None => Seq::empty(),
    }
}

/// Copies the log lines for publication.
fn dup_strings(v: &Vec<String>) -> (r: Vec<String>)
    ensures
        r@ == v@,
{
    let mut r: Vec<String> = Vec::new();
    let mut i: usize = 0;
    while i < v.len()
        invariant
            i <= v@.len(),
            r@ == v@.subrange(0, i as int),
        decreases v@.len() - i,
    {
        r.push(v[i].clone());
        i = i + 1;
    }
    proof {
        assert(r@ =~= v@);
    }
    r
}

/// What a correct snapshot of `w` for player `p` holds, field by field:
/// own hand card numbers and faith entities, counts for the opponent's
/// zones, the round and finished flags, the turn marker, and the log.
pub open spec fn snapshot_matches(r: Snapshot, w: System, p: PlayerId) -> bool {
    &&& r.self_hand@ == hand_card_numbers(w, p)
    &&& r.other_hand_count == w.hand_count(p.spec_opp()) as u32
    &&& r.self_deck_count == spec_deck_len(w, p) as u32
    &&& r.other_deck_count == spec_deck_len(w, p.spec_opp()) as u32
    &&& r.round == (match w.spec_game() {
        Some(g) => g.round,
        None => 0u32,
    })
    &&& r.finished == (match w.spec_game() {
        Some(g) => g.finished,
        None => false,
    })
    &&& r.is_your_turn == spec_is_turn(w, p)
    &&& r.self_faith@ == w.faith_ids(p)
    &&& r.debug_log@ == spec_log_lines(w)
}

/// Computes one player's privacy-filtered snapshot: own hand card
/// numbers and faith entities; only counts for the opponent's zones.
/// This is a pure read of game state and is not itself logged.
pub fn compute_snapshot(w: &System, p: PlayerId) -> (r: Snapshot)
    ensures
        snapshot_matches(r, *w, p),
{
    let q = crate::system::and(
        crate::system::Has(ComponentKind::CardId),
        Exact(Component::InHand(InHand(p))),
    );
    let hand_entities = w.query(&q);
    proof {
        crate::store::lemma_ids_where_congruent(
            |i: int| q.matches(*w, i),
            |i: int| w.card_ids().at(i) is Some && w.in_hands().at(i) == Some(InHand(p)),
            w.spec_entity_counter() as int,
        );
    }
    let mut self_hand: Vec<u32> = Vec::new();
    let mut i: usize = 0;
    while i < hand_entities.len()
        invariant
            i <= hand_entities@.len(),
            hand_entities@.map_values(|ent: Entity| ent@) == hand_ids_with_cards(*w, p),
            forall|j: int|
                0 <= j < hand_entities@.len() ==> q.matches(*w, (#[trigger] hand_entities@[j])@ as int),
            q.0.0 == ComponentKind::CardId,
            Component::spec_eq(q.1.0, Component::InHand(InHand(p))),
            self_hand@ == hand_card_numbers(*w, p).subrange(0, i as int),
        decreases hand_entities@.len() - i,
    {
        let e = hand_entities[i];
        let c = w.get_card_id(e).unwrap();
        self_hand.push(c.0);
        proof {
            assert(hand_ids_with_cards(*w, p)[i as int] == e@);
            assert(hand_card_numbers(*w, p)[i as int] == c.0);
            assert(self_hand@ =~= hand_card_numbers(*w, p).subrange(0, i + 1));
        }
        i = i + 1;
    }
    proof {
        assert(hand_card_numbers(*w, p).subrange(
            0,
            hand_card_numbers(*w, p).len() as int,
        ) =~= hand_card_numbers(*w, p));
    }

    let opp = p.opp();
    let other_hand_count = {
        let opp_hand = w.query(&Exact(Component::InHand(InHand(opp))));
        proof {
            crate::store::lemma_ids_where_congruent(
                |i: int| Exact(Component::InHand(InHand(opp))).matches(*w, i),
                |i: int| w.in_hands().at(i) == Some(InHand(opp)),
                w.spec_entity_counter() as int,
            );
        }
        #[verifier::truncate] (opp_hand.len() as u32)
    };

    let self_deck_count = #[verifier::truncate] (deck_len_of(w, p) as u32);
    let other_deck_count = #[verifier::truncate] (deck_len_of(w, opp) as u32);

    let (round, finished) = match w.game() {
        Some(g) => (g.round, g.finished),
        None => (0, false),
    };
    let is_your_turn = match w.find_player_entity(p) {
        Some(pe) => w.has_component(pe, ComponentKind::CurrentTurn),
        None => false,
    };

    let faith_entities = w.query(&Exact(Component::Faith(crate::card::Faith(p))));
    proof {
        crate::store::lemma_ids_where_congruent(
            |i: int| Exact(Component::Faith(crate::card::Faith(p))).matches(*w, i),
            |i: int| w.faiths().at(i) == Some(crate::card::Faith(p)),
            w.spec_entity_counter() as int,
        );
    }
    let mut self_faith: Vec<u32> = Vec::new();
    let mut k: usize = 0;
    while k < faith_entities.len()
        invariant
            k <= faith_entities@.len(),
            faith_entities@.map_values(|ent: Entity| ent@) == w.faith_ids(p),
            self_faith@ == w.faith_ids(p).subrange(0, k as int),
        decreases faith_entities@.len() - k,
    {
        self_faith.push(faith_entities[k].id());
        proof {
            assert(self_faith@ =~= w.faith_ids(p).subrange(0, k + 1));
        }
        k = k + 1;
    }
    proof {
        assert(w.faith_ids(p).subrange(0, w.faith_ids(p).len() as int) =~= w.faith_ids(p));
    }

    let debug_log = match w.log_ref() {
        Some(l) => dup_strings(&l.entries),
        None => Vec::new(),
    };
    proof {
        assert(debug_log@ =~= spec_log_lines(*w));
    }

    Snapshot {
        self_hand,
        other_hand_count,
        self_deck_count,
        other_deck_count,
        round,
        is_your_turn,
        finished,
        self_faith,
        debug_log,
    }
}

/// The deck size shown to clients: the length of the deck list on the
/// player's entity, zero if the player has no entity or state.
fn deck_len_of(w: &System, p: PlayerId) -> (r: usize)
    ensures
        r == spec_deck_len(*w, p),
{
    match w.find_player_entity(p) {
        Some(pe) => {
            match w.get_player_state_ref(pe) {
                Some(ps) => ps.deck.len(),
                None => 0,
            }
        },
        None => 0,
    }
}

/// Opponent-hand privacy: a published snapshot is a function of the
/// player's own zones and of the opponent's zone sizes alone, so two
/// states whose opponent hands hold different cards, but equally many,
/// yield the same snapshot. No reachable state can leak the opponent's
/// card identities.
pub proof fn snapshot_hides_opponent_hand(w1: System, w2: System, p: PlayerId)
    requires
        w2.spec_entity_counter() == w1.spec_entity_counter(),
        forall|i: int|
            (#[trigger] w2.in_hands().at(i) == Some(InHand(p))) == (w1.in_hands().at(i) == Some(
                InHand(p),
            )),
        forall|i: int|
            w1.in_hands().at(i) == Some(InHand(p)) ==> #[trigger] w2.card_ids().at(i)
                == w1.card_ids().at(i),
        w2.hand_count(p.spec_opp()) == w1.hand_count(p.spec_opp()),
        w2.player_entity_ids(p) == w1.player_entity_ids(p),
        w2.player_entity_ids(p.spec_opp()) == w1.player_entity_ids(p.spec_opp()),
        w1.player_entity_ids(p).len() > 0 ==> w2.player_states().at(w1.player_entity(p))
            == w1.player_states().at(w1.player_entity(p)),
        spec_deck_len(w2, p.spec_opp()) == spec_deck_len(w1, p.spec_opp()),
        w2.spec_game() == w1.spec_game(),
        w1.player_entity_ids(p).len() > 0 ==> w2.current_turns().at(w1.player_entity(p))
            == w1.current_turns().at(w1.player_entity(p)),
        w2.faith_ids(p) == w1.faith_ids(p),
        w2.spec_log() == w1.spec_log(),
    ensures
        hand_card_numbers(w2, p) == hand_card_numbers(w1, p),
        w2.hand_count(p.spec_opp()) == w1.hand_count(p.spec_opp()),
        spec_deck_len(w2, p) == spec_deck_len(w1, p),
        spec_is_turn(w2, p) == spec_is_turn(w1, p),
        spec_log_lines(w2) == spec_log_lines(w1),
        forall|r1: Snapshot, r2: Snapshot|
            call_ensures(compute_snapshot, (&w1, p), r1) && call_ensures(
                compute_snapshot,
                (&w2, p),
                r2,
            ) ==> r1.self_hand@ == r2.self_hand@ && r1.other_hand_count == r2.other_hand_count
                && r1.self_deck_count == r2.self_deck_count && r1.other_deck_count
                == r2.other_deck_count && r1.round == r2.round && r1.is_your_turn
                == r2.is_your_turn && r1.finished == r2.finished && r1.self_faith@
                == r2.self_faith@ && r1.debug_log@ == r2.debug_log@,
{
    let n = w1.spec_entity_counter() as int;
    assert(hand_ids_with_cards(w2, p) == hand_ids_with_cards(w1, p)) by {
        assert forall|i: int|
            0 <= i < n implies (#[trigger] w2.card_ids().at(i) is Some && w2.in_hands().at(i)
            == Some(InHand(p))) == (w1.card_ids().at(i) is Some && w1.in_hands().at(i) == Some(
            InHand(p),
        )) by {
            if w1.in_hands().at(i) == Some(InHand(p)) {
                assert(w2.card_ids().at(i) == w1.card_ids().at(i));
            }
        }
        crate::store::lemma_ids_where_congruent(
            |i: int| w2.card_ids().at(i) is Some && w2.in_hands().at(i) == Some(InHand(p)),
            |i: int| w1.card_ids().at(i) is Some && w1.in_hands().at(i) == Some(InHand(p)),
            n,
        );
    }
    assert(hand_card_numbers(w2, p) =~= hand_card_numbers(w1, p)) by {
        crate::store::lemma_ids_where_members(
            |i: int| w1.card_ids().at(i) is Some && w1.in_hands().at(i) == Some(InHand(p)),
            n,
        );
        assert forall|j: int|
            0 <= j < hand_card_numbers(w1, p).len() implies hand_card_numbers(w2, p)[j]
            == hand_card_numbers(w1, p)[j] by {
            let ids = hand_ids_with_cards(w1, p);
            let pred = |i: int|
                w1.card_ids().at(i) is Some && w1.in_hands().at(i) == Some(InHand(p));
            assert(ids == ids_where(pred, n));
            assert(pred(ids[j] as int));
            assert(w2.card_ids().at(ids[j] as int) == w1.card_ids().at(ids[j] as int));
        }
    }
}


/// One privacy-filtered snapshot of world `w` was appended to each
/// player's channel, on that player's own channel only, and nothing
/// already published changed.
pub open spec fn published_snapshots(pre: Room, post: Room, w: System) -> bool {
    &&& forall|p: PlayerId| #[trigger] post.events(p).len() == pre.events(p).len() + 1
    &&& forall|p: PlayerId| #[trigger] post.events(p).subrange(0, pre.events(p).len() as int)
        == pre.events(p)
    &&& forall|p: PlayerId|
        (#[trigger] post.events(p).last()) matches GameEvent::StateUpdate(snap)
            && snapshot_matches(snap, w, p)
}

impl Room {
    /// Publishes the current per-player snapshots on both channels; a
    /// no-op when no game runs.
    pub fn sync_game_state(&mut self)
        ensures
            final(self).spec_state() == old(self).spec_state(),
            final(self).spec_flow() == old(self).spec_flow(),
            forall|p: PlayerId| #[trigger] final(self).pending(p) == old(self).pending(p),
            forall|i: int| #[trigger] final(self).slot_occupied(i) == old(self).slot_occupied(i),
            final(self).slots_wf() == old(self).slots_wf(),
            old(self).inv() ==> final(self).inv(),
            old(self).spec_state() is Playing ==> published_snapshots(
                *old(self),
                *final(self),
                old(self).spec_world(),
            ),
            !(old(self).spec_state() is Playing) ==> *final(self) == *old(self),
    {
        match &self.state {
            RoomState::Playing(g) => {
                let s0 = compute_snapshot(&g.world, PlayerId::Player0);
                let s1 = compute_snapshot(&g.world, PlayerId::Player1);
                self.p0_events.push(GameEvent::StateUpdate(s0));
                self.p1_events.push(GameEvent::StateUpdate(s1));
                proof {
                    assert forall|p: PlayerId| #[trigger] self.events(p).subrange(
                        0,
                        old(self).events(p).len() as int,
                    ) == old(self).events(p) by {
                        assert(self.events(p).subrange(0, old(self).events(p).len() as int)
                            =~= old(self).events(p));
                    }
                    assert(self.user_events == old(self).user_events);
                    if old(self).inv() {
                        assert forall|i: int| #[trigger] self.slot_occupied(i) == old(
                            self,
                        ).slot_occupied(i) by {}
                        assert(self.inv());
                    }
                }
            },
            _ => {},
        }
    }

    /// Performs an action against the running game and then publishes
    /// fresh snapshots; fails when no game is in progress.
    pub fn perform<A: Action>(&mut self, action: &A, registry: &Registry) -> (r: Result<
        A::Output,
        RoomError,
    >)
        requires
            old(self).spec_state() matches RoomState::Playing(g) ==> (*action).pre(
                *registry,
                g.world,
            ),
        ensures
            r is Ok <==> old(self).spec_state() is Playing,
            r is Err ==> *final(self) == *old(self) && r == Err::<A::Output, RoomError>(
                RoomError::GameNotInProgress,
            ),
            r matches Ok(out) ==> {
                &&& final(self).spec_state() is Playing
                &&& (*action).post(
                    *registry,
                    old(self).spec_world(),
                    final(self).spec_world(),
                    out,
                )
                &&& final(self).spec_state()->Playing_0.p0_username@ == old(
                    self,
                ).spec_state()->Playing_0.p0_username@
                &&& final(self).spec_state()->Playing_0.p1_username@ == old(
                    self,
                ).spec_state()->Playing_0.p1_username@
                &&& final(self).spec_flow() == old(self).spec_flow()
                &&& forall|p: PlayerId| #[trigger] final(self).pending(p) == old(self).pending(p)
                &&& forall|i: int| #[trigger] final(self).slot_occupied(i) == old(
                    self,
                ).slot_occupied(i)
                &&& final(self).slots_wf() == old(self).slots_wf()
                &&& published_snapshots(*old(self), *final(self), final(self).spec_world())
            },
    {
        let out;
        match &mut self.state {
            RoomState::Playing(g) => {
                out = action.perform(&mut g.world, registry);
            },
            _ => {
                return Err(RoomError::GameNotInProgress);
            },
        }
        let ghost mid = *self;
        self.sync_game_state();
        proof {
            assert(mid.spec_world() == final(self).spec_world());
            assert forall|p: PlayerId| #[trigger] final(self).events(p).len() == old(self).events(
                p,
            ).len() + 1 by {
                assert(mid.events(p) == old(self).events(p));
            }
            assert forall|p: PlayerId| #[trigger] final(self).events(p).subrange(
                0,
                old(self).events(p).len() as int,
            ) == old(self).events(p) by {
                assert(mid.events(p) == old(self).events(p));
            }
            assert forall|p: PlayerId|
                (#[trigger] final(self).events(p).last()) matches GameEvent::StateUpdate(snap)
                    && snapshot_matches(snap, final(self).spec_world(), p) by {
                assert(final(self).events(p).last() matches GameEvent::StateUpdate(snap)
                    && snapshot_matches(snap, mid.spec_world(), p));
            }
        }
        Ok(out)
    }

    /// Allocates a sequence number, publishes the request on the player's
    /// channel with the server-side timeout budget, and remembers it for
    /// replay on reconnection.
    pub fn request_user_event(&mut self, player: PlayerId, payload: RequestEventType) -> (seqnum:
        usize)
        requires
            old(self).slots_wf(),
        ensures
            final(self).slots_wf(),
            !old(self).slot_occupied(seqnum as int),
            final(self).slot_occupied(seqnum as int),
            forall|i: int|
                i != seqnum as int ==> #[trigger] final(self).slot_occupied(i) == old(
                    self,
                ).slot_occupied(i),
            final(self).spec_state() == old(self).spec_state(),
            final(self).spec_flow() == old(self).spec_flow(),
            final(self).pending(player) matches Some(r) && r.seqnum == seqnum,
            final(self).pending(player.spec_opp()) == old(self).pending(player.spec_opp()),
            final(self).events(player).len() == old(self).events(player).len() + 1,
            final(self).events(player).subrange(0, old(self).events(player).len() as int) == old(
                self,
            ).events(player),
            final(self).events(player).last() matches GameEvent::RequestUserEvent(r) && {
                &&& r.seqnum == seqnum as u64
                &&& r.timeout == ADVISORY_SECONDS as i64
                &&& payload_eq(r.event_type, payload)
                &&& final(self).pending(player) matches Some(rp) && req_eq(rp, r)
            },
            final(self).events(player.spec_opp()) == old(self).events(player.spec_opp()),
    {
        let seqnum = self.user_events.insert();
        let request = RequestUserEvent {
            seqnum: seqnum as u64,
            timeout: ADVISORY_SECONDS as i64,
            event_type: payload,
        };
        let request2 = dup_request(&request);
        match player {
            PlayerId::Player0 => {
                self.p0_events.push(GameEvent::RequestUserEvent(request2));
                self.p0_pending_event = Some(request);
            },
            PlayerId::Player1 => {
                self.p1_events.push(GameEvent::RequestUserEvent(request2));
                self.p1_pending_event = Some(request);
            },
        }
        proof {
            assert(final(self).events(player).subrange(
                0,
                old(self).events(player).len() as int,
            ) =~= old(self).events(player));
        }
        seqnum
    }

    /// Forgets the remembered pending request of `player` and frees the
    /// sequence-number slot under `seqnum`.
    pub fn clear_request(&mut self, player: PlayerId, seqnum: usize)
        requires
            old(self).slots_wf(),
        ensures
            final(self).slots_wf(),
            !final(self).slot_occupied(seqnum as int),
            forall|i: int|
                i != seqnum as int ==> #[trigger] final(self).slot_occupied(i) == old(
                    self,
                ).slot_occupied(i),
            final(self).pending(player) is None,
            final(self).pending(player.spec_opp()) == old(self).pending(player.spec_opp()),
            final(self).spec_state() == old(self).spec_state(),
            final(self).spec_flow() == old(self).spec_flow(),
            forall|p: PlayerId| #[trigger] final(self).events(p) == old(self).events(p),
    {
        let _ = self.user_events.take(seqnum);
        match player {
            PlayerId::Player0 => {
                self.p0_pending_event = None;
            },
            PlayerId::Player1 => {
                self.p1_pending_event = None;
            },
        }
    }

    /// Whether the sequence number has an outstanding request.
    pub fn has_request(&self, seqnum: usize) -> (r: bool)
        ensures
            r == self.slot_occupied(seqnum as int),
    {
        self.user_events.contains(seqnum)
    }
}


impl Room {
    /// Where the game loop currently stands.
    pub fn current_flow(&self) -> (r: Flow)
        ensures
            r == self.spec_flow(),
    {
        self.flow
    }

    /// Moves the game loop marker.
    pub(crate) fn set_flow(&mut self, f: Flow)
        ensures
            final(self).spec_flow() == f,
            final(self).spec_state() == old(self).spec_state(),
            forall|p: PlayerId| #[trigger] final(self).pending(p) == old(self).pending(p),
            forall|p: PlayerId| #[trigger] final(self).events(p) == old(self).events(p),
            forall|i: int| #[trigger] final(self).slot_occupied(i) == old(self).slot_occupied(i),
            final(self).slots_wf() == old(self).slots_wf(),
    {
        self.flow = f;
    }

    /// Time units left on the turn timer at `now`; zero when no game or
    /// no turn is in progress.
    pub fn turn_time_left(&self, now: u64) -> (r: u64)
        ensures
            r == (match self.spec_state() {
                RoomState::Playing(g) => match g.world.spec_timer() {
                    Some(t) => t.0.spec_remaining(now),
                    None => 0u64,
                },
                _ => 0u64,
            }),
    {
        match &self.state {
            RoomState::Playing(g) => match g.world.timer() {
                Some(t) => t.0.remaining(now),
                None => 0,
            },
            _ => 0,
        }
    }

    /// The round counter of the running game.
    pub fn round_of(&self) -> (r: Option<u32>)
        ensures
            r == (match self.spec_state() {
                RoomState::Playing(g) => match g.world.spec_game() {
                    Some(gs) => Some(gs.round),
                    None => None::<u32>,
                },
                _ => None::<u32>,
            }),
    {
        match &self.state {
            RoomState::Playing(g) => match g.world.game() {
                Some(gs) => Some(gs.round),
                None => None,
            },
            _ => None,
        }
    }

    /// The entities in the player's hand that can be played this turn.
    pub fn playable_cards(&self, player: PlayerId) -> (r: Vec<u32>)
        ensures
            self.spec_state() matches RoomState::Playing(g) ==> r@ == hand_ids_with_cards(
                g.world,
                player,
            ),
            !(self.spec_state() is Playing) ==> r@ == Seq::<u32>::empty(),
    {
        match &self.state {
            RoomState::Playing(g) => {
                let q = crate::system::and(
                    crate::system::Has(ComponentKind::CardId),
                    Exact(Component::InHand(InHand(player))),
                );
                let ents = g.world.query(&q);
                proof {
                    crate::store::lemma_ids_where_congruent(
                        |i: int| q.matches(g.world, i),
                        |i: int| g.world.card_ids().at(i) is Some && g.world.in_hands().at(i)
                            == Some(InHand(player)),
                        g.world.spec_entity_counter() as int,
                    );
                }
                let mut out: Vec<u32> = Vec::new();
                let mut i: usize = 0;
                while i < ents.len()
                    invariant
                        i <= ents@.len(),
                        ents@.map_values(|ent: Entity| ent@) == hand_ids_with_cards(
                            g.world,
                            player,
                        ),
                        out@ == hand_ids_with_cards(g.world, player).subrange(0, i as int),
                    decreases ents@.len() - i,
                {
                    out.push(ents[i].id());
                    proof {
                        assert(out@ =~= hand_ids_with_cards(g.world, player).subrange(0, i + 1));
                    }
                    i = i + 1;
                }
                proof {
                    let h = hand_ids_with_cards(g.world, player);
                    assert(h.subrange(0, h.len() as int) =~= h);
                }
                out
            },
            _ => Vec::new(),
        }
    }

    /// The faith entities the player can offer as cost providers.
    pub fn faith_providers(&self, player: PlayerId) -> (r: Vec<u32>)
        ensures
            self.spec_state() matches RoomState::Playing(g) ==> r@ == g.world.faith_ids(player),
            !(self.spec_state() is Playing) ==> r@ == Seq::<u32>::empty(),
    {
        match &self.state {
            RoomState::Playing(g) => {
                let q = Exact(Component::Faith(crate::card::Faith(player)));
                let ents = g.world.query(&q);
                proof {
                    crate::store::lemma_ids_where_congruent(
                        |i: int| q.matches(g.world, i),
                        |i: int| g.world.faiths().at(i) == Some(crate::card::Faith(player)),
                        g.world.spec_entity_counter() as int,
                    );
                }
                let mut out: Vec<u32> = Vec::new();
                let mut i: usize = 0;
                while i < ents.len()
                    invariant
                        i <= ents@.len(),
                        ents@.map_values(|ent: Entity| ent@) == g.world.faith_ids(player),
                        out@ == g.world.faith_ids(player).subrange(0, i as int),
                    decreases ents@.len() - i,
                {
                    out.push(ents[i].id());
                    proof {
                        assert(out@ =~= g.world.faith_ids(player).subrange(0, i + 1));
                    }
                    i = i + 1;
                }
                proof {
                    let h = g.world.faith_ids(player);
                    assert(h.subrange(0, h.len() as int) =~= h);
                }
                out
            },
            _ => Vec::new(),
        }
    }

    /// The card number attached to the entity, if any.
    pub fn card_id_at(&self, entity: u32) -> (r: Option<u32>)
        ensures
            r == (match self.spec_state() {
                RoomState::Playing(g) => match g.world.card_ids().at(entity as int) {
                    Some(c) => Some(c.0),
                    None => None::<u32>,
                },
                _ => None::<u32>,
            }),
    {
        match &self.state {
            RoomState::Playing(g) => match g.world.get_card_id(Entity::from_id(entity)) {
                Some(c) => Some(c.0),
                None => None,
            },
            _ => None,
        }
    }

    /// Whether both players' decks are exhausted: the game loop's
    /// termination check.
    pub fn decks_empty(&self) -> (r: bool)
        ensures
            self.spec_state() matches RoomState::Playing(g) ==> r == (g.world.occupied_deck_ids().len()
                == 0),
            !(self.spec_state() is Playing) ==> r == true,
    {
        match &self.state {
            RoomState::Playing(g) => {
                let decks = g.world.query(&crate::system::Has(ComponentKind::InDeck));
                proof {
                    crate::store::lemma_ids_where_congruent(
                        |i: int| crate::system::Has(ComponentKind::InDeck).matches(g.world, i),
                        |i: int| g.world.in_decks().at(i) is Some,
                        g.world.spec_entity_counter() as int,
                    );
                }
                decks.len() == 0
            },
            _ => true,
        }
    }
}


/// What happened when a user asked to join a room.
#[derive(Debug, Clone, Copy, PartialEq, Eq, Structural)]
pub enum JoinOutcome {
    /// No room of that name existed; a waiting room was created.
    Created,
    /// The username already occupies a slot; joining again is idempotent.
    AlreadyIn,
    /// A second, distinct player arrived: the game starts.
    Started,
    /// Two other players already occupy the room.
    Full,
    /// The room's game has finished; terminal.
    HasFinished,
}

impl Room {
    /// Admits a second, distinct player into a waiting room and moves it
    /// to `Playing`; rejoining is idempotent; a playing room is full and
    /// a finished room stays finished.
    pub fn join(&mut self, username: String) -> (r: JoinOutcome)
        ensures
            final(self).spec_flow() == old(self).spec_flow(),
            forall|p: PlayerId| #[trigger] final(self).pending(p) == old(self).pending(p),
            forall|p: PlayerId| #[trigger] final(self).events(p) == old(self).events(p),
            forall|i: int| #[trigger] final(self).slot_occupied(i) == old(self).slot_occupied(i),
            final(self).slots_wf() == old(self).slots_wf(),
            match old(self).spec_state() {
                RoomState::Waiting { p0_username } => if p0_username@ == username@ {
                    r == JoinOutcome::AlreadyIn && final(self).spec_state() == old(
                        self,
                    ).spec_state()
                } else {
                    &&& r == JoinOutcome::Started
                    &&& final(self).spec_state() matches RoomState::Playing(g)
                        && g.p0_username@ == p0_username@ && g.p1_username@ == username@
                        && g.world.spec_entity_counter() == 0 && g.world.wf()
                },
                RoomState::Playing(g) => {
                    &&& final(self).spec_state() == old(self).spec_state()
                    &&& if g.p0_username@ == username@ || g.p1_username@ == username@ {
                        r == JoinOutcome::AlreadyIn
                    } else {
                        r == JoinOutcome::Full
                    }
                },
                RoomState::Finished => r == JoinOutcome::HasFinished && final(self).spec_state()
                    == old(self).spec_state(),
            },
            old(self).inv() && !(r == JoinOutcome::Started) ==> final(self).inv(),
    {
        let outcome: JoinOutcome;
        let mut next: Option<RoomState> = None;
        match &self.state {
            RoomState::Waiting { p0_username } => {
                if p0_username.eq(&username) {
                    outcome = JoinOutcome::AlreadyIn;
                } else {
                    let p0 = clone_string(p0_username);
                    next = Some(
                        RoomState::Playing(
                            PlayingGame {
                                p0_username: p0,
                                p1_username: username,
                                world: System::new(),
                            },
                        ),
                    );
                    outcome = JoinOutcome::Started;
                }
            },
            RoomState::Playing(g) => {
                if g.p0_username.eq(&username) || g.p1_username.eq(&username) {
                    outcome = JoinOutcome::AlreadyIn;
                } else {
                    outcome = JoinOutcome::Full;
                }
            },
            RoomState::Finished => {
                outcome = JoinOutcome::HasFinished;
            },
        }
        match next {
            Some(st) => {
                self.state = st;
            },
            None => {},
        }
        outcome
    }
}

/// Copies a username.
fn clone_string(s: &String) -> (r: String)
    ensures
        r@ == s@,
{
    s.clone()
}


impl Room {
    /// Ticks the advisory countdown of the player's remembered request
    /// down by one second, so a reconnecting client is shown an accurate
    /// remaining time. The server's own expiry is independent and
    /// authoritative; this changes nothing else.
    pub fn countdown_pending(&mut self, player: PlayerId) -> (r: Option<i64>)
        ensures
            final(self).spec_state() == old(self).spec_state(),
            final(self).spec_flow() == old(self).spec_flow(),
            forall|p: PlayerId| #[trigger] final(self).events(p) == old(self).events(p),
            forall|i: int| #[trigger] final(self).slot_occupied(i) == old(self).slot_occupied(i),
            final(self).slots_wf() == old(self).slots_wf(),
            final(self).pending(player.spec_opp()) == old(self).pending(player.spec_opp()),
            match old(self).pending(player) {
                Some(rp) => {
                    &&& final(self).pending(player) matches Some(rp2) && rp2.seqnum == rp.seqnum
                        && payload_eq(rp2.event_type, rp.event_type) && rp2.timeout == (
                    if rp.timeout > i64::MIN {
                        (rp.timeout - 1) as i64
                    } else {
                        rp.timeout
                    })
                    &&& r matches Some(left) && left == (if rp.timeout > i64::MIN {
                        (rp.timeout - 1) as i64
                    } else {
                        rp.timeout
                    })
                },
                None => final(self).pending(player) is None && r is None,
            },
            old(self).inv() ==> final(self).inv(),
    {
        let slot = match player {
            PlayerId::Player0 => &mut self.p0_pending_event,
            PlayerId::Player1 => &mut self.p1_pending_event,
        };
        let r = match slot {
            Some(rp) => {
                if rp.timeout > i64::MIN {
                    rp.timeout = rp.timeout - 1;
                }
                Some(rp.timeout)
            },
            None => None,
        };
        proof {
            if old(self).inv() {
                assert(self.user_events == old(self).user_events);
                assert forall|i: int| #[trigger] self.slot_occupied(i) == old(self).slot_occupied(
                    i,
                ) by {}
                assert(self.inv());
            }
        }
        r
    }
}

} // verus!
