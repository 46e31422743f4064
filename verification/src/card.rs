//! Card identities, zone markers, and the static card registry.

use vstd::prelude::*;

use crate::player::PlayerId;

verus! {

/// An opaque numeric identifier referencing a static prototype in the
/// registry; not itself mutable state.
#[derive(Debug, Clone, Copy, PartialEq, Eq, Hash, Structural)]
pub struct CardId(pub u32);

/// Zone marker: the card entity sits in this player's hand.
#[derive(Debug, Clone, Copy, PartialEq, Eq, Hash, Structural)]
pub struct InHand(pub PlayerId);

/// Zone marker: the card entity sits in this player's deck.
#[derive(Debug, Clone, Copy, PartialEq, Eq, Hash, Structural)]
pub struct InDeck(pub PlayerId);

/// Zone marker: the card entity sits in this player's faith row, where it
/// can provide payment for card costs.
#[derive(Debug, Clone, Copy, PartialEq, Eq, Hash, Structural)]
pub struct Faith(pub PlayerId);

/// The executable behavior a played card triggers, as a closed set of
/// effect kinds interpreted by the action resolver.
#[derive(Debug, Clone, Copy, PartialEq, Eq, Structural)]
pub enum SkillDef {
    /// Draw the given number of cards.
    DrawCards(usize),
}

/// Static description of an order card: it resolves its skills when
/// executed.
#[derive(Debug, Clone)]
pub struct OrderCardDef {
    pub card_id: CardId,
    pub name: String,
    pub description: String,
    pub cost: u32,
    pub skills: Vec<SkillDef>,
}

/// Static description of a faith card: it has no activation effect and
/// serves as a cost provider.
#[derive(Debug, Clone)]
pub struct FaithCardDef {
    pub card_id: CardId,
    pub name: String,
    pub description: String,
}

/// Static, registry-defined description of a card's identity and effect.
#[derive(Debug, Clone)]
pub enum CardDef {
    Order(OrderCardDef),
    Faith(FaithCardDef),
}

impl CardDef {
    /// The cost to pay before executing the card; faith cards are never
    /// executed and carry none.
    pub open spec fn spec_cost(self) -> Option<u32> {
        match self {
            CardDef::Order(o) => Some(o.cost),
            CardDef::Faith(_) => None,
        }
    }

    pub fn cost(&self) -> (r: Option<u32>)
        ensures
            r == self.spec_cost(),
    {
        match self {
            CardDef::Order(o) => Some(o.cost),
            CardDef::Faith(_) => None,
        }
    }
}

/// The default hasher state of the `ahash` crate; opaque here.
#[verifier::external_type_specification]
#[verifier::external_body]
pub struct ExRandomState(ahash::RandomState);

/// The hash map of the `ahash` crate, declared so that card definitions
/// can be stored in it. The map's contents are named by
/// [`card_table_map`] and every operation is specified against that name.
#[verifier::external_type_specification]
#[verifier::external_body]
#[verifier::reject_recursive_types(K)]
#[verifier::reject_recursive_types(V)]
#[verifier::reject_recursive_types(S)]
pub struct ExAHashMap<K, V, S>(ahash::AHashMap<K, V, S>);

/// What the registry's table holds: a map from card number to definition.
pub uninterp spec fn card_table_map(t: ahash::AHashMap<u32, CardDef>) -> Map<u32, CardDef>;

/// The contents of a freshly created card table.
pub open spec fn empty_card_map() -> Map<u32, CardDef> {
    Map::empty()
}

/// Relies on ahash::AHashMap::new: creates an empty map.
#[verifier::external_body]
fn card_table_new() -> (table: ahash::AHashMap<u32, CardDef>)
    ensures
        card_table_map(table) == empty_card_map(),
{
    ahash::AHashMap::new()
}

/// Relies on ahash::AHashMap::insert: maps the key to the value,
/// replacing any value the key was mapped to before.
#[verifier::external_body]
fn card_table_insert(table: &mut ahash::AHashMap<u32, CardDef>, id: u32, def: CardDef)
    ensures
        card_table_map(*final(table)) == card_table_map(*old(table)).insert(id, def),
{
    table.insert(id, def);
}

/// Relies on ahash::AHashMap::get: returns the value the key is mapped
/// to, if any.
#[verifier::external_body]
fn card_table_get(table: &ahash::AHashMap<u32, CardDef>, id: u32) -> (r: Option<&CardDef>)
    ensures
        match r {
            Some(d) => card_table_map(*table).contains_key(id) && *d == card_table_map(*table)[id],
            None => !card_table_map(*table).contains_key(id),
        },
{
    table.get(&id)
}

/// The card registry: maps a card identifier to its static definition.
///
/// It is constructed explicitly and handed to the room manager at
/// startup; rooms only read it.
pub struct Registry {
    cards: ahash::AHashMap<u32, CardDef>,
    ids: Vec<u32>,
}

impl Registry {
    /// The registered definitions, keyed by card number.
    pub closed spec fn spec_cards(self) -> Map<u32, CardDef> {
        card_table_map(self.cards)
    }

    /// The registered card numbers, in registration order.
    pub closed spec fn spec_ids(self) -> Seq<u32> {
        self.ids@
    }

    /// Registration order lists each registered card number exactly once.
    pub open spec fn ids_wf(self) -> bool {
        &&& forall|j: int| 0 <= j < self.spec_ids().len() ==> self.spec_cards().contains_key(
            #[trigger] self.spec_ids()[j],
        )
        &&& forall|id: u32| #[trigger]
            self.spec_cards().contains_key(id) ==> self.spec_ids().contains(id)
        &&& forall|i: int, j: int|
            0 <= i < j < self.spec_ids().len() ==> #[trigger] self.spec_ids()[i] != #[trigger] self.spec_ids()[j]
    }

    pub fn new() -> (r: Registry)
        ensures
            r.spec_cards() == Map::<u32, CardDef>::empty(),
            r.spec_ids() == Seq::<u32>::empty(),
            r.ids_wf(),
    {
        Registry { cards: card_table_new(), ids: Vec::new() }
    }

    /// Registers an order card under `card_id`; the identifier must not be
    /// registered yet.
    pub fn add_order(
        &mut self,
        card_id: CardId,
        name: String,
        description: String,
        cost: u32,
        skills: Vec<SkillDef>,
    )
        requires
            old(self).ids_wf(),
            !old(self).spec_cards().contains_key(card_id.0),
        ensures
            final(self).ids_wf(),
            final(self).spec_cards() == old(self).spec_cards().insert(
                card_id.0,
                CardDef::Order(OrderCardDef { card_id, name, description, cost, skills }),
            ),
            final(self).spec_ids() == old(self).spec_ids().push(card_id.0),
    {
        self.ids.push(card_id.0);
        card_table_insert(
            &mut self.cards,
            card_id.0,
            CardDef::Order(OrderCardDef { card_id, name, description, cost, skills }),
        );
        proof {
            let pre = *old(self);
            let post = *self;
            assert forall|j: int|
                0 <= j < post.spec_ids().len() implies post.spec_cards().contains_key(
                #[trigger] post.spec_ids()[j],
            ) by {
                if j < pre.spec_ids().len() {
                    assert(pre.spec_cards().contains_key(pre.spec_ids()[j]));
                }
            }
            assert forall|id: u32| #[trigger]
                post.spec_cards().contains_key(id) implies post.spec_ids().contains(id) by {
                if id == card_id.0 {
                    assert(post.spec_ids()[post.spec_ids().len() - 1] == id);
                } else {
                    assert(pre.spec_cards().contains_key(id));
                    let k = choose|k: int| 0 <= k < pre.spec_ids().len() && pre.spec_ids()[k] == id;
                    assert(post.spec_ids()[k] == id);
                }
            }
            assert forall|i: int, j: int|
                0 <= i < j < post.spec_ids().len() implies #[trigger] post.spec_ids()[i]
                != #[trigger] post.spec_ids()[j] by {
                if j == post.spec_ids().len() - 1 {
                    assert(pre.spec_cards().contains_key(pre.spec_ids()[i]));
                }
            }
        }
    }

    /// Registers a faith card under `card_id`; the identifier must not be
    /// registered yet.
    pub fn add_faith(&mut self, card_id: CardId, name: String, description: String)
        requires
            old(self).ids_wf(),
            !old(self).spec_cards().contains_key(card_id.0),
        ensures
            final(self).ids_wf(),
            final(self).spec_cards() == old(self).spec_cards().insert(
                card_id.0,
                CardDef::Faith(FaithCardDef { card_id, name, description }),
            ),
            final(self).spec_ids() == old(self).spec_ids().push(card_id.0),
    {
        self.ids.push(card_id.0);
        card_table_insert(
            &mut self.cards,
            card_id.0,
            CardDef::Faith(FaithCardDef { card_id, name, description }),
        );
        proof {
            let pre = *old(self);
            let post = *self;
            assert forall|j: int|
                0 <= j < post.spec_ids().len() implies post.spec_cards().contains_key(
                #[trigger] post.spec_ids()[j],
            ) by {
                if j < pre.spec_ids().len() {
                    assert(pre.spec_cards().contains_key(pre.spec_ids()[j]));
                }
            }
            assert forall|id: u32| #[trigger]
                post.spec_cards().contains_key(id) implies post.spec_ids().contains(id) by {
                if id == card_id.0 {
                    assert(post.spec_ids()[post.spec_ids().len() - 1] == id);
                } else {
                    assert(pre.spec_cards().contains_key(id));
                    let k = choose|k: int| 0 <= k < pre.spec_ids().len() && pre.spec_ids()[k] == id;
                    assert(post.spec_ids()[k] == id);
                }
            }
            assert forall|i: int, j: int|
                0 <= i < j < post.spec_ids().len() implies #[trigger] post.spec_ids()[i]
                != #[trigger] post.spec_ids()[j] by {
                if j == post.spec_ids().len() - 1 {
                    assert(pre.spec_cards().contains_key(pre.spec_ids()[i]));
                }
            }
        }
    }

    /// Resolves a card identifier to its registered definition.
    pub fn lookup(&self, card_id: CardId) -> (r: Option<&CardDef>)
        ensures
            match r {
                Some(d) => self.spec_cards().contains_key(card_id.0) && *d == self.spec_cards()[
                    card_id.0
                ],
                None => !self.spec_cards().contains_key(card_id.0),
            },
    {
        card_table_get(&self.cards, card_id.0)
    }

    /// The cost of the card, `None` when the identifier is unknown or the
    /// card is a faith card.
    pub fn cost(&self, card_id: CardId) -> (r: Option<u32>)
        ensures
            r == (if self.spec_cards().contains_key(card_id.0) {
                self.spec_cards()[card_id.0].spec_cost()
            } else {
                None
            }),
    {
        match self.lookup(card_id) {
            Some(d) => d.cost(),
            None => None,
        }
    }

    /// The registered card numbers, in registration order.
    pub fn card_numbers(&self) -> (r: Vec<u32>)
        ensures
            r@ == self.spec_ids(),
    {
        let mut out: Vec<u32> = Vec::new();
        let mut i: usize = 0;
        while i < self.ids.len()
            invariant
                i <= self.ids@.len(),
                out@ == self.ids@.subrange(0, i as int),
            decreases self.ids@.len() - i,
        {
            out.push(self.ids[i]);
            i = i + 1;
        }
        proof {
            assert(out@ =~= self.ids@);
        }
        out
    }
}

/// The card set used by the stock game: two order cards that draw one and
/// two cards, and one faith card.
pub fn default_registry() -> (r: Registry)
    ensures
        r.ids_wf(),
        r.spec_cards().contains_key(7001),
        r.spec_cards()[7001] matches CardDef::Order(o) && o.cost == 0 && o.skills@ =~= seq![
            SkillDef::DrawCards(1),
        ],
        r.spec_cards().contains_key(7002),
        r.spec_cards()[7002] matches CardDef::Order(o) && o.cost == 1 && o.skills@ =~= seq![
            SkillDef::DrawCards(2),
        ],
        r.spec_cards().contains_key(8001),
        r.spec_cards()[8001] is Faith,
        r.spec_ids() =~= seq![7001u32, 7002u32, 8001u32],
{
    let mut registry = Registry::new();
    let mut draw_one: Vec<SkillDef> = Vec::new();
    draw_one.push(SkillDef::DrawCards(1));
    let mut draw_two: Vec<SkillDef> = Vec::new();
    draw_two.push(SkillDef::DrawCards(2));
    registry.add_order(
        CardId(7001),
        String::from_str("Order 7001"),
        String::from_str("Draw a card."),
        0,
        draw_one,
    );
    registry.add_order(
        CardId(7002),
        String::from_str("Order 7002"),
        String::from_str("Draw two cards."),
        1,
        draw_two,
    );
    registry.add_faith(
        CardId(8001),
        String::from_str("Plain Faith"),
        String::from_str("Set aside to pay one colorless faith."),
    );
    registry
}


/// The client-facing description of one registered card.
#[derive(Debug, Clone, PartialEq, Eq)]
pub struct CardPrototype {
    pub card_id: u32,
    pub name: String,
    pub description: String,
}

impl Registry {
    /// The registered prototypes in registration order, with each card's
    /// number, name, and description.
    pub fn get_card_prototypes(&self) -> (r: Vec<CardPrototype>)
        requires
            self.ids_wf(),
        ensures
            r@.len() == self.spec_ids().len(),
            forall|j: int|
                0 <= j < r@.len() ==> (#[trigger] r@[j]).card_id == self.spec_ids()[j]
                    && self.spec_cards().contains_key(r@[j].card_id) && r@[j].name@ == (
                match self.spec_cards()[self.spec_ids()[j]] {
                    CardDef::Order(o) => o.name@,
                    CardDef::Faith(f) => f.name@,
                }) && r@[j].description@ == (match self.spec_cards()[self.spec_ids()[j]] {
                    CardDef::Order(o) => o.description@,
                    CardDef::Faith(f) => f.description@,
                }),
    {
        let numbers = self.card_numbers();
        let mut out: Vec<CardPrototype> = Vec::new();
        let mut j: usize = 0;
        while j < numbers.len()
            invariant
                j <= numbers@.len(),
                numbers@ == self.spec_ids(),
                self.ids_wf(),
                out@.len() == j,
                forall|k: int|
                    0 <= k < j ==> (#[trigger] out@[k]).card_id == self.spec_ids()[k]
                        && self.spec_cards().contains_key(out@[k].card_id) && out@[k].name@ == (
                    match self.spec_cards()[self.spec_ids()[k]] {
                        CardDef::Order(o) => o.name@,
                        CardDef::Faith(f) => f.name@,
                    }) && out@[k].description@ == (match self.spec_cards()[self.spec_ids()[k]] {
                        CardDef::Order(o) => o.description@,
                        CardDef::Faith(f) => f.description@,
                    }),
            decreases numbers@.len() - j,
        {
            let id = numbers[j];
            match self.lookup(CardId(id)) {
                Some(CardDef::Order(o)) => {
                    out.push(
                        CardPrototype {
                            card_id: id,
                            name: clone_name(&o.name),
                            description: clone_name(&o.description),
                        },
                    );
                },
                Some(CardDef::Faith(f)) => {
                    out.push(
                        CardPrototype {
                            card_id: id,
                            name: clone_name(&f.name),
                            description: clone_name(&f.description),
                        },
                    );
                },
                None => {
                    proof {
                        assert(self.spec_cards().contains_key(self.spec_ids()[j as int]));
                        assert(false);
                    }
                },
            }
            j = j + 1;
        }
        out
    }
}

/// Copies a card's display text.
fn clone_name(s: &String) -> (r: String)
    ensures
        r@ == s@,
{
    s.clone()
}

} // verus!
