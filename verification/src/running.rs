//! A running two-player match kept as plain lists: usernames, hands and
//! decks, with the privacy-filtered client view computed from them.

use vstd::prelude::*;

use crate::card::CardId;

verus! {

/// What a client of this match is shown: own hand card numbers, counts
/// for everything else.
#[derive(Debug, Clone, PartialEq, Eq)]
pub struct ClientState {
    pub self_hand: Vec<u32>,
    pub other_hand_count: u32,
    pub self_deck_count: u32,
    pub other_deck_count: u32,
}

/// A running match: the two players' names, hands, and decks.
pub struct RunningGame {
    /// Player 1's username
    p1_username: String,
    /// Player 2's username
    p2_username: String,
    /// Player 1's hand of cards
    p1_hand: Vec<CardId>,
    /// Player 2's hand of cards
    p2_hand: Vec<CardId>,
    /// Player 1's deck of cards
    p1_deck: Vec<CardId>,
    /// Player 2's deck of cards
    p2_deck: Vec<CardId>,
}

impl RunningGame {
    pub closed spec fn spec_p1_username(self) -> Seq<char> {
        self.p1_username@
    }

    pub closed spec fn spec_p2_username(self) -> Seq<char> {
        self.p2_username@
    }

    pub closed spec fn spec_hand(self, first: bool) -> Seq<CardId> {
        if first {
            self.p1_hand@
        } else {
            self.p2_hand@
        }
    }

    pub closed spec fn spec_deck(self, first: bool) -> Seq<CardId> {
        if first {
            self.p1_deck@
        } else {
            self.p2_deck@
        }
    }

    /// A fresh match between the two users, each with the stock
    /// thirty-card deck and an empty hand.
    pub fn new(p1_username: String, p2_username: String) -> (r: RunningGame)
        ensures
            r.spec_p1_username() == p1_username@,
            r.spec_p2_username() == p2_username@,
            r.spec_hand(true).len() == 0,
            r.spec_hand(false).len() == 0,
            r.spec_deck(true) == Seq::new(30, |i: int| CardId(7001)),
            r.spec_deck(false) == Seq::new(30, |i: int| CardId(7002)),
    {
        let r = RunningGame {
            p1_username,
            p2_username,
            p1_hand: Vec::new(),
            p2_hand: Vec::new(),
            p1_deck: vec![CardId(7001); 30],
            p2_deck: vec![CardId(7002); 30],
        };
        proof {
            assert(r.p1_deck@ =~= Seq::new(30, |i: int| CardId(7001)));
            assert(r.p2_deck@ =~= Seq::new(30, |i: int| CardId(7002)));
        }
        r
    }

    fn self_hand(&self, is_player_one: bool) -> (r: &Vec<CardId>)
        ensures
            r@ == self.spec_hand(is_player_one),
    {
        if is_player_one {
            &self.p1_hand
        } else {
            &self.p2_hand
        }
    }

    fn other_hand(&self, is_player_one: bool) -> (r: &Vec<CardId>)
        ensures
            r@ == self.spec_hand(!is_player_one),
    {
        if is_player_one {
            &self.p2_hand
        } else {
            &self.p1_hand
        }
    }

    fn self_deck(&self, is_player_one: bool) -> (r: &Vec<CardId>)
        ensures
            r@ == self.spec_deck(is_player_one),
    {
        if is_player_one {
            &self.p1_deck
        } else {
            &self.p2_deck
        }
    }

    fn other_deck(&self, is_player_one: bool) -> (r: &Vec<CardId>)
        ensures
            r@ == self.spec_deck(!is_player_one),
    {
        if is_player_one {
            &self.p2_deck
        } else {
            &self.p1_deck
        }
    }

    pub fn is_player(&self, username: &String) -> (r: bool)
        ensures
            r == (self.spec_p1_username() == username@ || self.spec_p2_username() == username@),
    {
        self.is_player_one(username) || self.is_player_two(username)
    }

    pub fn is_player_one(&self, username: &String) -> (r: bool)
        ensures
            r == (self.spec_p1_username() == username@),
    {
        self.p1_username.eq(username)
    }

    pub fn is_player_two(&self, username: &String) -> (r: bool)
        ensures
            r == (self.spec_p2_username() == username@),
    {
        self.p2_username.eq(username)
    }

    /// The requesting side's view. The opponent's hand and deck reach the
    /// client only as counts, never as card identities.
    pub fn to_client(&self, is_player_one: bool) -> (r: ClientState)
        ensures
            r.self_hand@ == self.spec_hand(is_player_one).map_values(|c: CardId| c.0),
            r.other_hand_count == self.spec_hand(!is_player_one).len() as u32,
            r.self_deck_count == self.spec_deck(is_player_one).len() as u32,
            r.other_deck_count == self.spec_deck(!is_player_one).len() as u32,
    {
        let hand = self.self_hand(is_player_one);
        let mut self_hand: Vec<u32> = Vec::new();
        let mut i: usize = 0;
        while i < hand.len()
            invariant
                i <= hand@.len(),
                hand@ == self.spec_hand(is_player_one),
                self_hand@ == hand@.subrange(0, i as int).map_values(|c: CardId| c.0),
            decreases hand@.len() - i,
        {
            let ghost prev = self_hand@;
            self_hand.push(hand[i].0);
            proof {
                assert(self_hand@ =~= hand@.subrange(0, i + 1).map_values(|c: CardId| c.0));
            }
            i = i + 1;
        }
        proof {
            assert(hand@.subrange(0, hand@.len() as int) =~= hand@);
        }
        let other_hand_count = #[verifier::truncate] (self.other_hand(is_player_one).len() as u32);
        let self_deck_count = #[verifier::truncate] (self.self_deck(is_player_one).len() as u32);
        let other_deck_count = #[verifier::truncate] (self.other_deck(is_player_one).len() as u32);
        ClientState { self_hand, other_hand_count, self_deck_count, other_deck_count }
    }
}

/// Opponent-hand privacy for the running-match view: two matches whose
/// own-side zones agree and whose opposite-side zones merely have the
/// same sizes are indistinguishable to the client.
pub proof fn to_client_hides_opponent_cards(g1: RunningGame, g2: RunningGame, is_player_one: bool)
    requires
        g1.spec_hand(is_player_one) == g2.spec_hand(is_player_one),
        g1.spec_deck(is_player_one).len() == g2.spec_deck(is_player_one).len(),
        g1.spec_hand(!is_player_one).len() == g2.spec_hand(!is_player_one).len(),
        g1.spec_deck(!is_player_one).len() == g2.spec_deck(!is_player_one).len(),
    ensures
        forall|r1: ClientState, r2: ClientState|
            call_ensures(RunningGame::to_client, (&g1, is_player_one), r1) && call_ensures(
                RunningGame::to_client,
                (&g2, is_player_one),
                r2,
            ) ==> r1.self_hand@ == r2.self_hand@ && r1.other_hand_count == r2.other_hand_count
                && r1.self_deck_count == r2.self_deck_count && r1.other_deck_count
                == r2.other_deck_count,
{
}

} // verus!
