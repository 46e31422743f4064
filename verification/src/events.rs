//! Events published to players and replies submitted by them.
//!
//! These are the plain values that cross the room boundary: state-update
//! snapshots, requests for input carrying a sequence number, and the
//! replies that answer them.

use vstd::prelude::*;

verus! {

/// A per-player, privacy-filtered view of game state: own hand card
/// numbers and faith entities, but only counts for the opponent's zones.
#[derive(Debug, Clone)]
pub struct Snapshot {
    /// Card numbers of the cards in the player's own hand.
    pub self_hand: Vec<u32>,
    /// How many cards the opponent holds; never their identities.
    pub other_hand_count: u32,
    pub self_deck_count: u32,
    pub other_deck_count: u32,
    pub round: u32,
    pub is_your_turn: bool,
    pub finished: bool,
    /// Entities in the player's own faith row.
    pub self_faith: Vec<u32>,
    pub debug_log: Vec<String>,
}

/// An amount of faith to pay.
#[derive(Debug, Clone, Copy, PartialEq, Eq, Structural)]
pub struct Cost {
    pub any: u32,
}

/// A faith entity offered as payment, and what it provides.
#[derive(Debug, Clone, Copy, PartialEq, Eq, Structural)]
pub struct CostProvider {
    pub entity: u32,
    pub provided: Option<Cost>,
}

/// Asks the player to choose a turn action among the playable cards.
#[derive(Debug, Clone)]
pub struct RequestTurnAction {
    /// Entities in the player's hand that may be played this turn.
    pub playable_cards: Vec<u32>,
}

/// Asks the player to choose how to pay a card's cost.
#[derive(Debug, Clone)]
pub struct RequestCostAction {
    pub cost: Option<Cost>,
    pub providers: Vec<CostProvider>,
}

/// The decision payload of a request for input.
#[derive(Debug, Clone)]
pub enum RequestEventType {
    TurnAction(RequestTurnAction),
    CostAction(RequestCostAction),
}

/// A request for input: correlation key, advisory countdown, payload.
#[derive(Debug, Clone)]
pub struct RequestUserEvent {
    /// Correlation key matching this request to a client reply.
    pub seqnum: u64,
    /// Advisory seconds the client may show; the server's own timeout is
    /// independent and authoritative.
    pub timeout: i64,
    pub event_type: RequestEventType,
}

/// What a room publishes on a player's channel.
#[derive(Debug, Clone)]
pub enum GameEvent {
    StateUpdate(Snapshot),
    RequestUserEvent(RequestUserEvent),
}

/// The player plays the card held by this entity.
#[derive(Debug, Clone, Copy, PartialEq, Eq, Structural)]
pub struct PlayCardEvent {
    pub entity: u32,
}

/// The player ends the turn.
#[derive(Debug, Clone, Copy, PartialEq, Eq, Structural)]
pub struct EndTurnEvent {}

/// The player pays a cost with these faith entities.
#[derive(Debug, Clone)]
pub struct PayCostEvent {
    pub providers: Vec<u32>,
}

/// A reply submitted by a player.
#[derive(Debug, Clone)]
pub enum UserEventType {
    PlayCard(PlayCardEvent),
    EndTurn(EndTurnEvent),
    PayCost(PayCostEvent),
}

/// A decision in response to a turn-action request.
#[derive(Debug, Clone)]
pub enum TurnAction {
    PlayCard(PlayCardEvent),
    EndTurn(EndTurnEvent),
}

/// A reply did not fit the question that was asked.
#[derive(Debug, Clone, Copy, PartialEq, Eq, Structural)]
pub struct WrongEventType;

/// Reads a reply as an answer to a turn-action request.
pub fn turn_action_from_reply(reply: UserEventType) -> (r: Result<TurnAction, WrongEventType>)
    ensures
        match reply {
            UserEventType::PlayCard(ev) => r == Ok::<TurnAction, WrongEventType>(
                TurnAction::PlayCard(ev),
            ),
            UserEventType::EndTurn(ev) => r == Ok::<TurnAction, WrongEventType>(
                TurnAction::EndTurn(ev),
            ),
            UserEventType::PayCost(_) => r == Err::<TurnAction, WrongEventType>(WrongEventType),
        },
{
    match reply {
        UserEventType::PlayCard(ev) => Ok(TurnAction::PlayCard(ev)),
        UserEventType::EndTurn(ev) => Ok(TurnAction::EndTurn(ev)),
        UserEventType::PayCost(_) => Err(WrongEventType),
    }
}

/// Reads a reply as an answer to a cost request.
pub fn pay_cost_from_reply(reply: UserEventType) -> (r: Result<PayCostEvent, WrongEventType>)
    ensures
        match reply {
            UserEventType::PayCost(ev) => r matches Ok(e) && e.providers@ == ev.providers@,
            _ => r is Err,
        },
{
    match reply {
        UserEventType::PayCost(ev) => Ok(ev),
        _ => Err(WrongEventType),
    }
}

/// Field-for-field equality of two decision payloads; vectors compare
/// by contents.
pub open spec fn payload_eq(a: RequestEventType, b: RequestEventType) -> bool {
    match (a, b) {
        (RequestEventType::TurnAction(x), RequestEventType::TurnAction(y)) => x.playable_cards@
            == y.playable_cards@,
        (RequestEventType::CostAction(x), RequestEventType::CostAction(y)) => x.cost == y.cost
            && x.providers@ == y.providers@,
        _ => false,
    }
}

/// Field-for-field equality of two requests; vectors compare by contents.
pub open spec fn req_eq(a: RequestUserEvent, b: RequestUserEvent) -> bool {
    &&& a.seqnum == b.seqnum
    &&& a.timeout == b.timeout
    &&& payload_eq(a.event_type, b.event_type)
}

/// Copies a vector of plain numbers.
fn dup_u32s(v: &Vec<u32>) -> (r: Vec<u32>)
    ensures
        r@ == v@,
{
    let mut r: Vec<u32> = Vec::new();
    let mut i: usize = 0;
    while i < v.len()
        invariant
            i <= v@.len(),
            r@ == v@.subrange(0, i as int),
        decreases v@.len() - i,
    {
        r.push(v[i]);
        i = i + 1;
    }
    proof {
        assert(r@ =~= v@);
    }
    r
}

/// Copies a vector of cost providers.
fn dup_providers(v: &Vec<CostProvider>) -> (r: Vec<CostProvider>)
    ensures
        r@ == v@,
{
    let mut r: Vec<CostProvider> = Vec::new();
    let mut i: usize = 0;
    while i < v.len()
        invariant
            i <= v@.len(),
            r@ == v@.subrange(0, i as int),
        decreases v@.len() - i,
    {
        r.push(v[i]);
        i = i + 1;
    }
    proof {
        assert(r@ =~= v@);
    }
    r
}

/// An exact copy of a request, made so that a pending request can be
/// replayed verbatim while staying remembered.
pub fn dup_request(r: &RequestUserEvent) -> (r2: RequestUserEvent)
    ensures
        req_eq(*r, r2),
{
    let event_type = match &r.event_type {
        RequestEventType::TurnAction(x) => RequestEventType::TurnAction(
            RequestTurnAction { playable_cards: dup_u32s(&x.playable_cards) },
        ),
        RequestEventType::CostAction(x) => RequestEventType::CostAction(
            RequestCostAction { cost: x.cost, providers: dup_providers(&x.providers) },
        ),
    };
    RequestUserEvent { seqnum: r.seqnum, timeout: r.timeout, event_type }
}

} // verus!
