//! The component system: one storage per component type, singleton
//! resource slots, and a monotonic entity allocator.
//!
//! Components are a closed, tagged set of typed facts; each kind is kept
//! in its own arena keyed by entity identifier, so an entity carries at
//! most one value of each kind.

use vstd::prelude::*;

use crate::card::{CardId, Faith, InDeck, InHand};
use crate::player::{CurrentTurn, PlayerId, PlayerState};
use crate::state::{DebugLog, GameState, TurnTimer};
use crate::store::{ids_where, Entity, Storage};

verus! {

/// A typed fact about an entity.
#[derive(Debug, Clone)]
pub enum Component {
    Player(PlayerId),
    PlayerState(PlayerState),
    CurrentTurn(CurrentTurn),
    CardId(CardId),
    InHand(InHand),
    InDeck(InDeck),
    Faith(Faith),
}

/// The kind of a component: the key under which its storage is found.
#[derive(Debug, Clone, Copy, PartialEq, Eq, Structural)]
pub enum ComponentKind {
    Player,
    PlayerState,
    CurrentTurn,
    CardId,
    InHand,
    InDeck,
    Faith,
}

impl Component {
    pub open spec fn kind(self) -> ComponentKind {
        match self {
            Component::Player(_) => ComponentKind::Player,
            Component::PlayerState(_) => ComponentKind::PlayerState,
            Component::CurrentTurn(_) => ComponentKind::CurrentTurn,
            Component::CardId(_) => ComponentKind::CardId,
            Component::InHand(_) => ComponentKind::InHand,
            Component::InDeck(_) => ComponentKind::InDeck,
            Component::Faith(_) => ComponentKind::Faith,
        }
    }

    pub fn kind_of(&self) -> (k: ComponentKind)
        ensures
            k == self.kind(),
    {
        match self {
            Component::Player(_) => ComponentKind::Player,
            Component::PlayerState(_) => ComponentKind::PlayerState,
            Component::CurrentTurn(_) => ComponentKind::CurrentTurn,
            Component::CardId(_) => ComponentKind::CardId,
            Component::InHand(_) => ComponentKind::InHand,
            Component::InDeck(_) => ComponentKind::InDeck,
            Component::Faith(_) => ComponentKind::Faith,
        }
    }

    /// Component equality; a player-state compares by its deck sequence.
    pub open spec fn spec_eq(a: Component, b: Component) -> bool {
        match (a, b) {
            (Component::Player(x), Component::Player(y)) => x == y,
            (Component::PlayerState(x), Component::PlayerState(y)) => x.deck@ == y.deck@,
            (Component::CurrentTurn(_), Component::CurrentTurn(_)) => true,
            (Component::CardId(x), Component::CardId(y)) => x == y,
            (Component::InHand(x), Component::InHand(y)) => x == y,
            (Component::InDeck(x), Component::InDeck(y)) => x == y,
            (Component::Faith(x), Component::Faith(y)) => x == y,
            _ => false,
        }
    }
}

/// A singleton, entity-independent piece of global state.
#[derive(Debug, Clone)]
pub enum Resource {
    Game(GameState),
    Timer(TurnTimer),
    Log(DebugLog),
}

/// The kind of a resource: the key under which its slot is found.
#[derive(Debug, Clone, Copy, PartialEq, Eq, Structural)]
pub enum ResourceKind {
    Game,
    Timer,
    Log,
}

impl Resource {
    pub open spec fn kind(self) -> ResourceKind {
        match self {
            Resource::Game(_) => ResourceKind::Game,
            Resource::Timer(_) => ResourceKind::Timer,
            Resource::Log(_) => ResourceKind::Log,
        }
    }
}

/// The component store: typed facts keyed by entity, singleton resources,
/// and the entity allocator.
pub struct System {
    pub(crate) players: Storage<PlayerId>,
    pub(crate) player_states: Storage<PlayerState>,
    pub(crate) current_turns: Storage<CurrentTurn>,
    pub(crate) card_ids: Storage<CardId>,
    pub(crate) in_hands: Storage<InHand>,
    pub(crate) in_decks: Storage<InDeck>,
    pub(crate) faiths: Storage<Faith>,
    pub(crate) game: Option<GameState>,
    pub(crate) timer: Option<TurnTimer>,
    pub(crate) log: Option<DebugLog>,
    pub(crate) entity_counter: u32,
}

impl System {
    pub closed spec fn players(self) -> Storage<PlayerId> {
        self.players
    }

    pub closed spec fn player_states(self) -> Storage<PlayerState> {
        self.player_states
    }

    pub closed spec fn current_turns(self) -> Storage<CurrentTurn> {
        self.current_turns
    }

    pub closed spec fn card_ids(self) -> Storage<CardId> {
        self.card_ids
    }

    pub closed spec fn in_hands(self) -> Storage<InHand> {
        self.in_hands
    }

    pub closed spec fn in_decks(self) -> Storage<InDeck> {
        self.in_decks
    }

    pub closed spec fn faiths(self) -> Storage<Faith> {
        self.faiths
    }

    pub closed spec fn spec_game(self) -> Option<GameState> {
        self.game
    }

    pub closed spec fn spec_timer(self) -> Option<TurnTimer> {
        self.timer
    }

    pub closed spec fn spec_log(self) -> Option<DebugLog> {
        self.log
    }

    pub closed spec fn spec_entity_counter(self) -> u32 {
        self.entity_counter
    }

    /// The component of kind `k` attached to entity `i`, if any.
    pub open spec fn comp_at(self, k: ComponentKind, i: int) -> Option<Component> {
        match k {
            ComponentKind::Player => match self.players().at(i) {
                Some(v) => Some(Component::Player(v)),
                None => None,
            },
            ComponentKind::PlayerState => match self.player_states().at(i) {
                Some(v) => Some(Component::PlayerState(v)),
                None => None,
            },
            ComponentKind::CurrentTurn => match self.current_turns().at(i) {
                Some(v) => Some(Component::CurrentTurn(v)),
                None => None,
            },
            ComponentKind::CardId => match self.card_ids().at(i) {
                Some(v) => Some(Component::CardId(v)),
                None => None,
            },
            ComponentKind::InHand => match self.in_hands().at(i) {
                Some(v) => Some(Component::InHand(v)),
                None => None,
            },
            ComponentKind::InDeck => match self.in_decks().at(i) {
                Some(v) => Some(Component::InDeck(v)),
                None => None,
            },
            ComponentKind::Faith => match self.faiths().at(i) {
                Some(v) => Some(Component::Faith(v)),
                None => None,
            },
        }
    }

    /// No entity at or above the allocation counter carries a component:
    /// identifiers are handed out monotonically and never reused.
    pub open spec fn wf(self) -> bool {
        forall|k: ComponentKind, i: int|
            i >= self.spec_entity_counter() ==> #[trigger] self.comp_at(k, i) is None
    }

    /// The resource slots of `self` and `other` agree.
    pub open spec fn resources_eq(self, other: System) -> bool {
        &&& self.spec_game() == other.spec_game()
        &&& self.spec_timer() == other.spec_timer()
        &&& self.spec_log() == other.spec_log()
    }

    /// The component storages of `self` and `other` agree everywhere.
    pub open spec fn comps_eq(self, other: System) -> bool {
        forall|k: ComponentKind, i: int| #[trigger] self.comp_at(k, i) == other.comp_at(k, i)
    }

    pub fn new() -> (r: System)
        ensures
            r.wf(),
            r.spec_entity_counter() == 0,
            forall|k: ComponentKind, i: int| #[trigger] r.comp_at(k, i) is None,
            r.spec_game() is None,
            r.spec_timer() is None,
            r.spec_log() is None,
    {
        System {
            players: Storage::new(),
            player_states: Storage::new(),
            current_turns: Storage::new(),
            card_ids: Storage::new(),
            in_hands: Storage::new(),
            in_decks: Storage::new(),
            faiths: Storage::new(),
            game: None,
            timer: None,
            log: None,
            entity_counter: 0,
        }
    }

    pub fn entity_count(&self) -> (r: u32)
        ensures
            r == self.spec_entity_counter(),
    {
        self.entity_counter
    }

    /// Attaches a component to an allocated entity; fails, returning the
    /// component, if the entity already carries one of its kind.
    pub fn add_component(&mut self, e: Entity, c: Component) -> (r: Result<(), Component>)
        requires
            old(self).wf(),
            e@ < old(self).spec_entity_counter(),
        ensures
            final(self).wf(),
            r is Ok <==> old(self).comp_at(c.kind(), e@ as int) is None,
            r is Ok ==> final(self).comp_at(c.kind(), e@ as int) == Some(c),
            r is Err ==> *final(self) == *old(self) && r == Err::<(), Component>(c),
            forall|k: ComponentKind, i: int|
                !(k == c.kind() && i == e@ as int) ==> #[trigger] final(self).comp_at(k, i) == old(
                    self,
                ).comp_at(k, i),
            final(self).resources_eq(*old(self)),
            final(self).spec_entity_counter() == old(self).spec_entity_counter(),
    {
        let r = match c {
            Component::Player(v) => match self.players.insert(e, v) {
                Ok(()) => Ok(()),
                Err(v) => Err(Component::Player(v)),
            },
            Component::PlayerState(v) => match self.player_states.insert(e, v) {
                Ok(()) => Ok(()),
                Err(v) => Err(Component::PlayerState(v)),
            },
            Component::CurrentTurn(v) => match self.current_turns.insert(e, v) {
                Ok(()) => Ok(()),
                Err(v) => Err(Component::CurrentTurn(v)),
            },
            Component::CardId(v) => match self.card_ids.insert(e, v) {
                Ok(()) => Ok(()),
                Err(v) => Err(Component::CardId(v)),
            },
            Component::InHand(v) => match self.in_hands.insert(e, v) {
                Ok(()) => Ok(()),
                Err(v) => Err(Component::InHand(v)),
            },
            Component::InDeck(v) => match self.in_decks.insert(e, v) {
                Ok(()) => Ok(()),
                Err(v) => Err(Component::InDeck(v)),
            },
            Component::Faith(v) => match self.faiths.insert(e, v) {
                Ok(()) => Ok(()),
                Err(v) => Err(Component::Faith(v)),
            },
        };
        proof {
            assert forall|k: ComponentKind, i: int|
                i >= self.spec_entity_counter() implies #[trigger] self.comp_at(k, i) is None by {
                assert(old(self).comp_at(k, i) is None);
                assert(self.comp_at(k, i) == old(self).comp_at(k, i));
            }
        }
        r
    }

    /// Detaches and returns the component of kind `k` on `e`, if present.
    pub fn remove_component(&mut self, e: Entity, k: ComponentKind) -> (r: Option<Component>)
        ensures
            r == old(self).comp_at(k, e@ as int),
            final(self).comp_at(k, e@ as int) is None,
            forall|k2: ComponentKind, i: int|
                !(k2 == k && i == e@ as int) ==> #[trigger] final(self).comp_at(k2, i) == old(
                    self,
                ).comp_at(k2, i),
            final(self).resources_eq(*old(self)),
            final(self).spec_entity_counter() == old(self).spec_entity_counter(),
            old(self).wf() ==> final(self).wf(),
    {
        let r = match k {
            ComponentKind::Player => match self.players.remove(e) {
                Some(v) => Some(Component::Player(v)),
                None => None,
            },
            ComponentKind::PlayerState => match self.player_states.remove(e) {
                Some(v) => Some(Component::PlayerState(v)),
                None => None,
            },
            ComponentKind::CurrentTurn => match self.current_turns.remove(e) {
                Some(v) => Some(Component::CurrentTurn(v)),
                None => None,
            },
            ComponentKind::CardId => match self.card_ids.remove(e) {
                Some(v) => Some(Component::CardId(v)),
                None => None,
            },
            ComponentKind::InHand => match self.in_hands.remove(e) {
                Some(v) => Some(Component::InHand(v)),
                None => None,
            },
            ComponentKind::InDeck => match self.in_decks.remove(e) {
                Some(v) => Some(Component::InDeck(v)),
                None => None,
            },
            ComponentKind::Faith => match self.faiths.remove(e) {
                Some(v) => Some(Component::Faith(v)),
                None => None,
            },
        };
        proof {
            if old(self).wf() {
                assert forall|k2: ComponentKind, i: int|
                    i >= self.spec_entity_counter() implies #[trigger] self.comp_at(k2, i) is None by {
                    assert(old(self).comp_at(k2, i) is None);
                    assert(self.comp_at(k2, i) == old(self).comp_at(k2, i));
                }
            }
        }
        r
    }

    /// Whether entity `e` carries a component of kind `k`.
    pub fn has_component(&self, e: Entity, k: ComponentKind) -> (r: bool)
        ensures
            r == (self.comp_at(k, e@ as int) is Some),
    {
        match k {
            ComponentKind::Player => self.players.contains(e),
            ComponentKind::PlayerState => self.player_states.contains(e),
            ComponentKind::CurrentTurn => self.current_turns.contains(e),
            ComponentKind::CardId => self.card_ids.contains(e),
            ComponentKind::InHand => self.in_hands.contains(e),
            ComponentKind::InDeck => self.in_decks.contains(e),
            ComponentKind::Faith => self.faiths.contains(e),
        }
    }

    /// The card identity of entity `e`, if it is a card.
    pub fn get_card_id(&self, e: Entity) -> (r: Option<CardId>)
        ensures
            r == self.card_ids().at(e@ as int),
    {
        match self.card_ids.get(e) {
            Some(c) => Some(*c),
            None => None,
        }
    }

    /// Detaches every component of `e`; the entity's identifier is never
    /// reused, so this is how an entity is deleted.
    pub fn despawn(&mut self, e: Entity)
        ensures
            forall|k: ComponentKind| #[trigger] final(self).comp_at(k, e@ as int) is None,
            forall|k: ComponentKind, i: int|
                i != e@ as int ==> #[trigger] final(self).comp_at(k, i) == old(self).comp_at(k, i),
            final(self).resources_eq(*old(self)),
            final(self).spec_entity_counter() == old(self).spec_entity_counter(),
            old(self).wf() ==> final(self).wf(),
    {
        let _ = self.players.remove(e);
        let _ = self.player_states.remove(e);
        let _ = self.current_turns.remove(e);
        let _ = self.card_ids.remove(e);
        let _ = self.in_hands.remove(e);
        let _ = self.in_decks.remove(e);
        let _ = self.faiths.remove(e);
        proof {
            if old(self).wf() {
                assert forall|k: ComponentKind, i: int|
                    i >= self.spec_entity_counter() implies #[trigger] self.comp_at(k, i) is None by {
                    if i != e@ as int {
                        assert(old(self).comp_at(k, i) is None);
                        assert(self.comp_at(k, i) == old(self).comp_at(k, i));
                    }
                }
            }
        }
    }

    /// Allocates a fresh entity and atomically attaches the given
    /// components, whose kinds must be pairwise distinct (supplying a
    /// duplicate kind in one spawn is a programmer error).
    pub fn spawn(&mut self, components: Vec<Component>) -> (e: Entity)
        requires
            old(self).wf(),
            old(self).spec_entity_counter() < u32::MAX,
            forall|i: int, j: int|
                0 <= i < j < components@.len() ==> (#[trigger] components@[i]).kind() != (
                #[trigger] components@[j]).kind(),
        ensures
            final(self).wf(),
            e@ == old(self).spec_entity_counter(),
            final(self).spec_entity_counter() == old(self).spec_entity_counter() + 1,
            forall|j: int|
                0 <= j < components@.len() ==> final(self).comp_at(
                    (#[trigger] components@[j]).kind(),
                    e@ as int,
                ) == Some(components@[j]),
            forall|k: ComponentKind|
                (forall|j: int| 0 <= j < components@.len() ==> (#[trigger] components@[j]).kind() != k)
                    ==> #[trigger] final(self).comp_at(k, e@ as int) is None,
            forall|k: ComponentKind, i: int|
                i != e@ as int ==> #[trigger] final(self).comp_at(k, i) == old(self).comp_at(k, i),
            final(self).resources_eq(*old(self)),
    {
        let e = Entity::from_id(self.entity_counter);
        self.entity_counter = self.entity_counter + 1;
        proof {
            assert forall|k: ComponentKind, i: int|
                i >= self.spec_entity_counter() implies #[trigger] self.comp_at(k, i) is None by {
                assert(old(self).comp_at(k, i) is None);
                assert(self.comp_at(k, i) == old(self).comp_at(k, i));
            }
        }
        proof {
            assert forall|k: ComponentKind| #[trigger] self.comp_at(k, e@ as int) is None by {
                assert(old(self).comp_at(k, e@ as int) is None);
                assert(self.comp_at(k, e@ as int) == old(self).comp_at(k, e@ as int));
            }
        }
        let ghost all = components@;
        let ghost w1 = *self;
        let mut comps = components;
        proof {
            assert(comps@ =~= all.subrange(0, all.len() as int));
        }
        while comps.len() > 0
            invariant
                self.wf(),
                comps@ == all.subrange(0, comps@.len() as int),
                comps@.len() <= all.len(),
                e@ as int == w1.spec_entity_counter() - 1,
                self.spec_entity_counter() == w1.spec_entity_counter(),
                forall|i: int, j: int|
                    0 <= i < j < all.len() ==> (#[trigger] all[i]).kind() != (
                    #[trigger] all[j]).kind(),
                forall|j: int|
                    comps@.len() <= j < all.len() ==> self.comp_at(
                        (#[trigger] all[j]).kind(),
                        e@ as int,
                    ) == Some(all[j]),
                forall|k: ComponentKind|
                    (forall|j: int|
                        comps@.len() <= j < all.len() ==> (#[trigger] all[j]).kind() != k)
                        ==> #[trigger] self.comp_at(k, e@ as int) is None,
                forall|k: ComponentKind, i: int|
                    i != e@ as int ==> #[trigger] self.comp_at(k, i) == w1.comp_at(k, i),
                self.resources_eq(w1),
            decreases comps@.len(),
        {
            let ghost m = comps@.len() as int;
            let c = comps.pop().unwrap();
            proof {
                assert(c == all[m - 1]);
                assert(comps@ =~= all.subrange(0, m - 1));
                assert(self.comp_at(c.kind(), e@ as int) is None);
            }
            let r = self.add_component(e, c);
            assert(r is Ok);
        }
        e
    }
}


impl System {
    /// The resource of kind `k`, if present.
    pub open spec fn res_at(self, k: ResourceKind) -> Option<Resource> {
        match k {
            ResourceKind::Game => match self.spec_game() {
                Some(v) => Some(Resource::Game(v)),
                None => None,
            },
            ResourceKind::Timer => match self.spec_timer() {
                Some(v) => Some(Resource::Timer(v)),
                None => None,
            },
            ResourceKind::Log => match self.spec_log() {
                Some(v) => Some(Resource::Log(v)),
                None => None,
            },
        }
    }

    /// Installs a resource, replacing any previous instance of its kind.
    pub fn add_resource(&mut self, r: Resource)
        ensures
            final(self).res_at(r.kind()) == Some(r),
            forall|k: ResourceKind|
                k != r.kind() ==> #[trigger] final(self).res_at(k) == old(self).res_at(k),
            final(self).comps_eq(*old(self)),
            final(self).spec_entity_counter() == old(self).spec_entity_counter(),
            old(self).wf() ==> final(self).wf(),
    {
        match r {
            Resource::Game(v) => {
                self.game = Some(v);
            },
            Resource::Timer(v) => {
                self.timer = Some(v);
            },
            Resource::Log(v) => {
                self.log = Some(v);
            },
        }
        proof {
            if old(self).wf() {
                assert forall|k: ComponentKind, i: int|
                    i >= self.spec_entity_counter() implies #[trigger] self.comp_at(k, i) is None by {
                    assert(old(self).comp_at(k, i) is None);
                    assert(self.comp_at(k, i) == old(self).comp_at(k, i));
                }
            }
        }
    }

    /// Removes and returns the resource of kind `k`; its absence is a
    /// valid, checkable state.
    pub fn remove_resource(&mut self, k: ResourceKind) -> (r: Option<Resource>)
        ensures
            r == old(self).res_at(k),
            final(self).res_at(k) is None,
            forall|k2: ResourceKind|
                k2 != k ==> #[trigger] final(self).res_at(k2) == old(self).res_at(k2),
            final(self).comps_eq(*old(self)),
            final(self).spec_entity_counter() == old(self).spec_entity_counter(),
            old(self).wf() ==> final(self).wf(),
    {
        let r = match k {
            ResourceKind::Game => {
                let mut slot: Option<GameState> = None;
                core::mem::swap(&mut self.game, &mut slot);
                match slot {
                    Some(v) => Some(Resource::Game(v)),
                    None => None,
                }
            },
            ResourceKind::Timer => {
                let mut slot: Option<TurnTimer> = None;
                core::mem::swap(&mut self.timer, &mut slot);
                match slot {
                    Some(v) => Some(Resource::Timer(v)),
                    None => None,
                }
            },
            ResourceKind::Log => {
                let mut slot: Option<DebugLog> = None;
                core::mem::swap(&mut self.log, &mut slot);
                match slot {
                    Some(v) => Some(Resource::Log(v)),
                    None => None,
                }
            },
        };
        proof {
            if old(self).wf() {
                assert forall|k2: ComponentKind, i: int|
                    i >= self.spec_entity_counter() implies #[trigger] self.comp_at(k2, i) is None by {
                    assert(old(self).comp_at(k2, i) is None);
                    assert(self.comp_at(k2, i) == old(self).comp_at(k2, i));
                }
            }
        }
        r
    }

    /// The global game record, if the game has been initialized.
    pub fn game(&self) -> (r: Option<GameState>)
        ensures
            r == self.spec_game(),
    {
        self.game
    }

    /// The turn timer; present exactly while a turn is in progress.
    pub fn timer(&self) -> (r: Option<TurnTimer>)
        ensures
            r == self.spec_timer(),
    {
        self.timer
    }

    /// The log line recorded at position `i`, if there is one.
    pub fn log_entry(&self, i: usize) -> (r: Option<&String>)
        ensures
            match r {
                Some(line) => {
                    &&& self.spec_log() is Some
                    &&& i < self.spec_log().unwrap().entries@.len()
                    &&& *line == self.spec_log().unwrap().entries@[i as int]
                },
                None => self.spec_log() is None || i >= self.spec_log().unwrap().entries@.len(),
            },
    {
        match &self.log {
            Some(l) => {
                if i < l.entries.len() {
                    Some(&l.entries[i])
                } else {
                    None
                }
            },
            None => None,
        }
    }

    /// Appends a line to the debug log, creating the log resource with a
    /// default value on first access.
    pub fn push_log(&mut self, line: String)
        ensures
            final(self).spec_log() is Some,
            final(self).spec_log().unwrap().entries@ == (match old(self).spec_log() {
                Some(l) => l.entries@,
                None => Seq::<String>::empty(),
            }).push(line),
            final(self).spec_game() == old(self).spec_game(),
            final(self).spec_timer() == old(self).spec_timer(),
            final(self).comps_eq(*old(self)),
            final(self).spec_entity_counter() == old(self).spec_entity_counter(),
            old(self).wf() ==> final(self).wf(),
    {
        let mut slot: Option<DebugLog> = None;
        core::mem::swap(&mut self.log, &mut slot);
        let mut l = match slot {
            Some(l) => l,
            None => DebugLog::default(),
        };
        l.push(line);
        self.log = Some(l);
        proof {
            if old(self).wf() {
                assert forall|k: ComponentKind, i: int|
                    i >= self.spec_entity_counter() implies #[trigger] self.comp_at(k, i) is None by {
                    assert(old(self).comp_at(k, i) is None);
                    assert(self.comp_at(k, i) == old(self).comp_at(k, i));
                }
            }
        }
    }

    /// All entities matching the query, in ascending identifier order.
    pub fn query<Q: Query>(&self, q: &Q) -> (r: Vec<Entity>)
        ensures
            r@.map_values(|ent: Entity| ent@) == ids_where(
                |i: int| q.matches(*self, i),
                self.spec_entity_counter() as int,
            ),
            forall|j: int| 0 <= j < r@.len() ==> (#[trigger] r@[j])@ < self.spec_entity_counter(),
            forall|j: int| 0 <= j < r@.len() ==> q.matches(*self, (#[trigger] r@[j])@ as int),
    {
        let ghost pred = |i: int| q.matches(*self, i);
        let mut out: Vec<Entity> = Vec::new();
        let n = self.entity_counter;
        let mut idx: u32 = 0;
        while idx < n
            invariant
                n == self.spec_entity_counter(),
                idx <= n,
                forall|i: int| #[trigger] pred(i) == q.matches(*self, i),
                out@.map_values(|ent: Entity| ent@) == ids_where(pred, idx as int),
                forall|j: int| 0 <= j < out@.len() ==> (#[trigger] out@[j])@ < idx,
                forall|j: int| 0 <= j < out@.len() ==> pred((#[trigger] out@[j])@ as int),
            decreases n - idx,
        {
            let e = Entity::from_id(idx);
            if q.execute_filter(self, e) {
                let ghost prev = out@;
                out.push(e);
                proof {
                    assert(out@.map_values(|ent: Entity| ent@) =~= prev.map_values(
                        |ent: Entity| ent@,
                    ).push(idx));
                }
            }
            idx = idx + 1;
        }
        proof {
            crate::store::lemma_ids_where_congruent(
                pred,
                |i: int| q.matches(*self, i),
                self.spec_entity_counter() as int,
            );
        }
        out
    }
}

/// A composable query predicate over the component store.
pub trait Query: Sized {
    /// Whether entity `i` matches the predicate in world `w`.
    spec fn matches(self, w: System, i: int) -> bool;

    /// Decides the predicate for one entity.
    fn execute_filter(&self, w: &System, e: Entity) -> (r: bool)
        ensures
            r == self.matches(*w, e@ as int),
    ;

}

/// Conjunction of two query predicates: entities matching both.
pub fn and<Q1: Query, Q2: Query>(q1: Q1, q2: Q2) -> (r: And<Q1, Q2>)
    ensures
        r.0 == q1,
        r.1 == q2,
{
    And(q1, q2)
}

/// Matches entities carrying any component of the given kind.
pub struct Has(pub ComponentKind);

/// Entities that carry a component of kind `k`.
pub fn has(k: ComponentKind) -> (r: Has)
    ensures
        r.0 == k,
{
    Has(k)
}

impl Query for Has {
    open spec fn matches(self, w: System, i: int) -> bool {
        w.comp_at(self.0, i) is Some
    }

    fn execute_filter(&self, w: &System, e: Entity) -> (r: bool)
        ensures
            r == self.matches(*w, e@ as int),
    {
        w.has_component(e, self.0)
    }
}

/// Matches entities carrying a component equal to the given value.
pub struct Exact(pub Component);

/// Entities that carry a component equal to `c`.
pub fn exact(c: Component) -> (r: Exact)
    ensures
        Component::spec_eq(r.0, c),
{
    Exact(c)
}

impl Query for Exact {
    open spec fn matches(self, w: System, i: int) -> bool {
        match w.comp_at(self.0.kind(), i) {
            Some(c) => Component::spec_eq(c, self.0),
            None => false,
        }
    }

    fn execute_filter(&self, w: &System, e: Entity) -> (r: bool)
        ensures
            r == self.matches(*w, e@ as int),
    {
        match &self.0 {
            Component::Player(v) => match w.players.get(e) {
                Some(x) => *x == *v,
                None => false,
            },
            Component::PlayerState(v) => match w.player_states.get(e) {
                Some(x) => entity_vec_eq(&x.deck, &v.deck),
                None => false,
            },
            Component::CurrentTurn(_) => w.current_turns.contains(e),
            Component::CardId(v) => match w.card_ids.get(e) {
                Some(x) => *x == *v,
                None => false,
            },
            Component::InHand(v) => match w.in_hands.get(e) {
                Some(x) => *x == *v,
                None => false,
            },
            Component::InDeck(v) => match w.in_decks.get(e) {
                Some(x) => *x == *v,
                None => false,
            },
            Component::Faith(v) => match w.faiths.get(e) {
                Some(x) => *x == *v,
                None => false,
            },
        }
    }
}

/// Elementwise comparison of two entity sequences.
fn entity_vec_eq(a: &Vec<Entity>, b: &Vec<Entity>) -> (r: bool)
    ensures
        r == (a@ == b@),
{
    if a.len() != b.len() {
        proof {
            assert(a@.len() != b@.len());
        }
        return false;
    }
    let mut i: usize = 0;
    while i < a.len()
        invariant
            a@.len() == b@.len(),
            i <= a@.len(),
            forall|j: int| 0 <= j < i ==> a@[j] == b@[j],
        decreases a@.len() - i,
    {
        if a[i] == b[i] {
            i = i + 1;
        } else {
            return false;
        }
    }
    proof {
        assert(a@ =~= b@);
    }
    true
}

/// Conjunction of two query predicates.
pub struct And<Q1, Q2>(pub Q1, pub Q2);

impl<Q1: Query, Q2: Query> Query for And<Q1, Q2> {
    open spec fn matches(self, w: System, i: int) -> bool {
        self.0.matches(w, i) && self.1.matches(w, i)
    }

    fn execute_filter(&self, w: &System, e: Entity) -> (r: bool)
        ensures
            r == self.matches(*w, e@ as int),
    {
        self.0.execute_filter(w, e) && self.1.execute_filter(w, e)
    }
}


impl System {
    /// Storages agree everywhere except possibly kind `k` at entity `e`.
    pub open spec fn comps_eq_except(self, other: System, k: ComponentKind, e: int) -> bool {
        forall|k2: ComponentKind, i: int|
            !(k2 == k && i == e) ==> #[trigger] self.comp_at(k2, i) == other.comp_at(k2, i)
    }

    /// Entities in `p`'s hand: those tagged `InHand(p)`, in ascending order.
    pub open spec fn in_hand_ids(self, p: PlayerId) -> Seq<u32> {
        ids_where(
            |i: int| self.in_hands().at(i) == Some(InHand(p)),
            self.spec_entity_counter() as int,
        )
    }

    /// Number of cards in `p`'s hand.
    pub open spec fn hand_count(self, p: PlayerId) -> int {
        self.in_hand_ids(p).len() as int
    }

    /// Entities in `p`'s faith row, in ascending order.
    pub open spec fn faith_ids(self, p: PlayerId) -> Seq<u32> {
        ids_where(
            |i: int| self.faiths().at(i) == Some(Faith(p)),
            self.spec_entity_counter() as int,
        )
    }

    /// Entities in any hand.
    pub open spec fn occupied_hand_ids(self) -> Seq<u32> {
        ids_where(|i: int| self.in_hands().at(i) is Some, self.spec_entity_counter() as int)
    }

    /// Entities in any deck zone.
    pub open spec fn occupied_deck_ids(self) -> Seq<u32> {
        ids_where(|i: int| self.in_decks().at(i) is Some, self.spec_entity_counter() as int)
    }

    /// Entities carrying `p`'s player marker; a well-formed game has
    /// exactly one.
    pub open spec fn player_entity_ids(self, p: PlayerId) -> Seq<u32> {
        ids_where(|i: int| self.players().at(i) == Some(p), self.spec_entity_counter() as int)
    }

    /// The entity representing player `p`.
    pub open spec fn player_entity(self, p: PlayerId) -> int {
        self.player_entity_ids(p)[0] as int
    }

    /// `p`'s deck, top last; empty when the game has not been set up.
    pub open spec fn deck_seq(self, p: PlayerId) -> Seq<Entity> {
        match self.player_states().at(self.player_entity(p)) {
            Some(ps) => ps.deck@,
            None => Seq::empty(),
        }
    }

    /// Number of cards left in `p`'s deck.
    pub open spec fn deck_count(self, p: PlayerId) -> int {
        self.deck_seq(p).len() as int
    }

    /// A sound deck entry: tagged as in `p`'s deck, not in a hand, a real
    /// card, and not a player entity.
    pub open spec fn deck_entry_ok(self, p: PlayerId, e: int) -> bool {
        &&& self.in_decks().at(e) == Some(InDeck(p))
        &&& self.in_hands().at(e) is None
        &&& self.card_ids().at(e) is Some
        &&& self.players().at(e) is None
        &&& self.player_states().at(e) is None
    }

    /// Well-formedness of a set-up game: one player entity per player,
    /// each holding a player state; deck entries are sound and pairwise
    /// distinct; every card in a hand is a real card; and the global game
    /// record exists.
    pub open spec fn game_wf(self) -> bool {
        &&& self.wf()
        &&& self.player_entity_ids(PlayerId::Player0).len() == 1
        &&& self.player_entity_ids(PlayerId::Player1).len() == 1
        &&& self.player_states().at(self.player_entity(PlayerId::Player0)) is Some
        &&& self.player_states().at(self.player_entity(PlayerId::Player1)) is Some
        &&& forall|p: PlayerId, j: int|
            0 <= j < self.deck_seq(p).len() ==> self.deck_entry_ok(
                p,
                (#[trigger] self.deck_seq(p)[j])@ as int,
            )
        &&& forall|p1: PlayerId, j1: int, p2: PlayerId, j2: int|
            0 <= j1 < self.deck_seq(p1).len() && 0 <= j2 < self.deck_seq(p2).len() && !(p1 == p2
                && j1 == j2) ==> (#[trigger] self.deck_seq(p1)[j1])@ != (
            #[trigger] self.deck_seq(p2)[j2])@
        &&& forall|i: int| #[trigger] self.in_hands().at(i) is Some ==> self.card_ids().at(i) is Some
        &&& self.spec_game() is Some
    }

    /// The debug log of `other` extends the log of `self` by one line.
    pub open spec fn log_grew(self, other: System) -> bool {
        &&& other.spec_log() is Some
        &&& other.spec_log().unwrap().entries@.len() == (match self.spec_log() {
            Some(l) => l.entries@.len(),
            None => 0,
        }) + 1
        &&& forall|j: int|
            0 <= j < (match self.spec_log() {
                Some(l) => l.entries@.len(),
                None => 0,
            }) ==> other.spec_log().unwrap().entries@[j] == #[trigger] self.spec_log().unwrap().entries@[j]
    }
}


/// Two worlds with the same components and allocator agree on every
/// derived game view: hands, faith rows, player entities, and decks.
pub proof fn lemma_same_comps_same_game_view(w1: System, w2: System)
    requires
        w2.comps_eq(w1),
        w2.spec_entity_counter() == w1.spec_entity_counter(),
    ensures
        forall|p: PlayerId| #[trigger] w2.in_hand_ids(p) == w1.in_hand_ids(p),
        forall|p: PlayerId| #[trigger] w2.faith_ids(p) == w1.faith_ids(p),
        forall|p: PlayerId| #[trigger] w2.player_entity_ids(p) == w1.player_entity_ids(p),
        forall|p: PlayerId| #[trigger] w2.deck_seq(p) == w1.deck_seq(p),
        w2.occupied_hand_ids() == w1.occupied_hand_ids(),
        w2.occupied_deck_ids() == w1.occupied_deck_ids(),
        w1.wf() ==> w2.wf(),
        w1.game_wf() && w2.spec_game() is Some ==> w2.game_wf(),
{
    let n = w1.spec_entity_counter() as int;
    assert forall|k: ComponentKind, i: int| #[trigger] w2.comp_at(k, i) == w1.comp_at(k, i) by {}
    assert forall|i: int| #[trigger] w2.in_hands().at(i) == w1.in_hands().at(i) by {
        assert(w2.comp_at(ComponentKind::InHand, i) == w1.comp_at(ComponentKind::InHand, i));
    }
    assert forall|i: int| #[trigger] w2.in_decks().at(i) == w1.in_decks().at(i) by {
        assert(w2.comp_at(ComponentKind::InDeck, i) == w1.comp_at(ComponentKind::InDeck, i));
    }
    assert forall|i: int| #[trigger] w2.faiths().at(i) == w1.faiths().at(i) by {
        assert(w2.comp_at(ComponentKind::Faith, i) == w1.comp_at(ComponentKind::Faith, i));
    }
    assert forall|i: int| #[trigger] w2.players().at(i) == w1.players().at(i) by {
        assert(w2.comp_at(ComponentKind::Player, i) == w1.comp_at(ComponentKind::Player, i));
    }
    assert forall|i: int| #[trigger] w2.player_states().at(i) == w1.player_states().at(i) by {
        assert(w2.comp_at(ComponentKind::PlayerState, i) == w1.comp_at(
            ComponentKind::PlayerState,
            i,
        ));
    }
    assert forall|i: int| #[trigger] w2.card_ids().at(i) == w1.card_ids().at(i) by {
        assert(w2.comp_at(ComponentKind::CardId, i) == w1.comp_at(ComponentKind::CardId, i));
    }
    assert forall|i: int| #[trigger] w2.current_turns().at(i) == w1.current_turns().at(i) by {
        assert(w2.comp_at(ComponentKind::CurrentTurn, i) == w1.comp_at(
            ComponentKind::CurrentTurn,
            i,
        ));
    }
    assert forall|p: PlayerId| #[trigger] w2.in_hand_ids(p) == w1.in_hand_ids(p) by {
        crate::store::lemma_ids_where_congruent(
            |i: int| w2.in_hands().at(i) == Some(InHand(p)),
            |i: int| w1.in_hands().at(i) == Some(InHand(p)),
            n,
        );
    }
    assert forall|p: PlayerId| #[trigger] w2.faith_ids(p) == w1.faith_ids(p) by {
        crate::store::lemma_ids_where_congruent(
            |i: int| w2.faiths().at(i) == Some(Faith(p)),
            |i: int| w1.faiths().at(i) == Some(Faith(p)),
            n,
        );
    }
    assert forall|p: PlayerId| #[trigger] w2.player_entity_ids(p) == w1.player_entity_ids(p) by {
        crate::store::lemma_ids_where_congruent(
            |i: int| w2.players().at(i) == Some(p),
            |i: int| w1.players().at(i) == Some(p),
            n,
        );
    }
    assert(w2.occupied_hand_ids() == w1.occupied_hand_ids()) by {
        crate::store::lemma_ids_where_congruent(
            |i: int| w2.in_hands().at(i) is Some,
            |i: int| w1.in_hands().at(i) is Some,
            n,
        );
    }
    assert(w2.occupied_deck_ids() == w1.occupied_deck_ids()) by {
        crate::store::lemma_ids_where_congruent(
            |i: int| w2.in_decks().at(i) is Some,
            |i: int| w1.in_decks().at(i) is Some,
            n,
        );
    }
    assert forall|p: PlayerId| #[trigger] w2.deck_seq(p) == w1.deck_seq(p) by {}
    if w1.wf() {
        assert forall|k: ComponentKind, i: int|
            i >= w2.spec_entity_counter() implies #[trigger] w2.comp_at(k, i) is None by {
            assert(w1.comp_at(k, i) is None);
        }
    }
    if w1.game_wf() && w2.spec_game() is Some {
        assert forall|p: PlayerId, j: int|
            0 <= j < w2.deck_seq(p).len() implies w2.deck_entry_ok(
            p,
            (#[trigger] w2.deck_seq(p)[j])@ as int,
        ) by {
            assert(w1.deck_entry_ok(p, (w1.deck_seq(p)[j])@ as int));
        }
        assert forall|i: int| #[trigger]
            w2.in_hands().at(i) is Some implies w2.card_ids().at(i) is Some by {
            assert(w1.in_hands().at(i) is Some);
        }
    }
}


/// A change confined to one component kind at one entity leaves every
/// game view derived from the other kinds unchanged.
pub proof fn lemma_game_view_comp_change(w1: System, w2: System, k: ComponentKind, e: int)
    requires
        w2.comps_eq_except(w1, k, e),
        w2.spec_entity_counter() == w1.spec_entity_counter(),
    ensures
        k != ComponentKind::InHand ==> forall|p: PlayerId| #[trigger] w2.in_hand_ids(p)
            == w1.in_hand_ids(p),
        k != ComponentKind::InHand ==> w2.occupied_hand_ids() == w1.occupied_hand_ids(),
        k != ComponentKind::Faith ==> forall|p: PlayerId| #[trigger] w2.faith_ids(p)
            == w1.faith_ids(p),
        k != ComponentKind::Player ==> forall|p: PlayerId| #[trigger] w2.player_entity_ids(p)
            == w1.player_entity_ids(p),
        k != ComponentKind::InDeck ==> w2.occupied_deck_ids() == w1.occupied_deck_ids(),
        k != ComponentKind::Player && k != ComponentKind::PlayerState ==> forall|p: PlayerId|
            #[trigger] w2.deck_seq(p) == w1.deck_seq(p),
        w1.wf() && e < w1.spec_entity_counter() ==> w2.wf(),
        w1.game_wf() && w2.spec_game() is Some && (k == ComponentKind::CurrentTurn || k
            == ComponentKind::Faith) && e < w1.spec_entity_counter() ==> w2.game_wf(),
{
    let n = w1.spec_entity_counter() as int;
    if k != ComponentKind::InHand {
        assert forall|i: int| #[trigger] w2.in_hands().at(i) == w1.in_hands().at(i) by {
            assert(w2.comp_at(ComponentKind::InHand, i) == w1.comp_at(ComponentKind::InHand, i));
        }
        assert forall|p: PlayerId| #[trigger] w2.in_hand_ids(p) == w1.in_hand_ids(p) by {
            crate::store::lemma_ids_where_congruent(
                |i: int| w2.in_hands().at(i) == Some(InHand(p)),
                |i: int| w1.in_hands().at(i) == Some(InHand(p)),
                n,
            );
        }
        assert(w2.occupied_hand_ids() == w1.occupied_hand_ids()) by {
            crate::store::lemma_ids_where_congruent(
                |i: int| w2.in_hands().at(i) is Some,
                |i: int| w1.in_hands().at(i) is Some,
                n,
            );
        }
    }
    if k != ComponentKind::Faith {
        assert forall|i: int| #[trigger] w2.faiths().at(i) == w1.faiths().at(i) by {
            assert(w2.comp_at(ComponentKind::Faith, i) == w1.comp_at(ComponentKind::Faith, i));
        }
        assert forall|p: PlayerId| #[trigger] w2.faith_ids(p) == w1.faith_ids(p) by {
            crate::store::lemma_ids_where_congruent(
                |i: int| w2.faiths().at(i) == Some(Faith(p)),
                |i: int| w1.faiths().at(i) == Some(Faith(p)),
                n,
            );
        }
    }
    if k != ComponentKind::Player {
        assert forall|i: int| #[trigger] w2.players().at(i) == w1.players().at(i) by {
            assert(w2.comp_at(ComponentKind::Player, i) == w1.comp_at(ComponentKind::Player, i));
        }
        assert forall|p: PlayerId| #[trigger] w2.player_entity_ids(p) == w1.player_entity_ids(p) by {
            crate::store::lemma_ids_where_congruent(
                |i: int| w2.players().at(i) == Some(p),
                |i: int| w1.players().at(i) == Some(p),
                n,
            );
        }
    }
    if k != ComponentKind::InDeck {
        assert forall|i: int| #[trigger] w2.in_decks().at(i) == w1.in_decks().at(i) by {
            assert(w2.comp_at(ComponentKind::InDeck, i) == w1.comp_at(ComponentKind::InDeck, i));
        }
        assert(w2.occupied_deck_ids() == w1.occupied_deck_ids()) by {
            crate::store::lemma_ids_where_congruent(
                |i: int| w2.in_decks().at(i) is Some,
                |i: int| w1.in_decks().at(i) is Some,
                n,
            );
        }
    }
    if k != ComponentKind::Player && k != ComponentKind::PlayerState {
        assert forall|i: int| #[trigger] w2.player_states().at(i) == w1.player_states().at(i) by {
            assert(w2.comp_at(ComponentKind::PlayerState, i) == w1.comp_at(
                ComponentKind::PlayerState,
                i,
            ));
        }
        assert forall|p: PlayerId| #[trigger] w2.deck_seq(p) == w1.deck_seq(p) by {}
    }
    if w1.wf() && e < w1.spec_entity_counter() {
        assert forall|k2: ComponentKind, i: int|
            i >= w2.spec_entity_counter() implies #[trigger] w2.comp_at(k2, i) is None by {
            assert(w1.comp_at(k2, i) is None);
            assert(w2.comp_at(k2, i) == w1.comp_at(k2, i));
        }
    }
    if w1.game_wf() && w2.spec_game() is Some && (k == ComponentKind::CurrentTurn || k
        == ComponentKind::Faith) && e < w1.spec_entity_counter() {
        assert forall|p: PlayerId, j: int|
            0 <= j < w2.deck_seq(p).len() implies w2.deck_entry_ok(
            p,
            (#[trigger] w2.deck_seq(p)[j])@ as int,
        ) by {
            let ei = (w1.deck_seq(p)[j])@ as int;
            assert(w1.deck_entry_ok(p, ei));
            assert(w2.comp_at(ComponentKind::InDeck, ei) == w1.comp_at(ComponentKind::InDeck, ei));
            assert(w2.comp_at(ComponentKind::InHand, ei) == w1.comp_at(ComponentKind::InHand, ei));
            assert(w2.comp_at(ComponentKind::CardId, ei) == w1.comp_at(ComponentKind::CardId, ei));
            assert(w2.comp_at(ComponentKind::Player, ei) == w1.comp_at(ComponentKind::Player, ei));
            assert(w2.comp_at(ComponentKind::PlayerState, ei) == w1.comp_at(
                ComponentKind::PlayerState,
                ei,
            ));
        }
        assert forall|i: int| #[trigger]
            w2.in_hands().at(i) is Some implies w2.card_ids().at(i) is Some by {
            assert(w2.comp_at(ComponentKind::InHand, i) == w1.comp_at(ComponentKind::InHand, i));
            assert(w1.in_hands().at(i) is Some);
            assert(w2.comp_at(ComponentKind::CardId, i) == w1.comp_at(ComponentKind::CardId, i));
        }
    }
}


impl System {
    /// The entity carrying `p`'s player marker, if the game has been set
    /// up.
    pub fn find_player_entity(&self, p: PlayerId) -> (r: Option<Entity>)
        ensures
            r is Some <==> self.player_entity_ids(p).len() > 0,
            r is Some ==> r.unwrap()@ == self.player_entity_ids(p)[0] && r.unwrap()@
                < self.spec_entity_counter(),
    {
        let list = self.query(&Exact(Component::Player(p)));
        proof {
            let q = Exact(Component::Player(p));
            crate::store::lemma_ids_where_congruent(
                |i: int| q.matches(*self, i),
                |i: int| self.players().at(i) == Some(p),
                self.spec_entity_counter() as int,
            );
        }
        if list.len() > 0 {
            Some(list[0])
        } else {
            None
        }
    }
}


impl System {
    /// Detaches and returns the player state on entity `e`, if present.
    pub fn take_player_state(&mut self, e: Entity) -> (r: Option<PlayerState>)
        ensures
            r == old(self).player_states().at(e@ as int),
            final(self).player_states().at(e@ as int) is None,
            final(self).comps_eq_except(*old(self), ComponentKind::PlayerState, e@ as int),
            final(self).resources_eq(*old(self)),
            final(self).spec_entity_counter() == old(self).spec_entity_counter(),
            old(self).wf() ==> final(self).wf(),
    {
        let r = self.player_states.remove(e);
        proof {
            assert forall|k2: ComponentKind, i: int|
                !(k2 == ComponentKind::PlayerState && i == e@ as int) implies #[trigger] self.comp_at(
                k2,
                i,
            ) == old(self).comp_at(k2, i) by {}
            if old(self).wf() {
                assert forall|k2: ComponentKind, i: int|
                    i >= self.spec_entity_counter() implies #[trigger] self.comp_at(k2, i) is None by {
                    assert(old(self).comp_at(k2, i) is None);
                    assert(self.comp_at(k2, i) == old(self).comp_at(k2, i));
                }
            }
        }
        r
    }

    /// Attaches a player state to entity `e`, which must not carry one.
    pub fn put_player_state(&mut self, e: Entity, ps: PlayerState)
        requires
            old(self).player_states().at(e@ as int) is None,
            old(self).wf(),
            e@ < old(self).spec_entity_counter(),
        ensures
            final(self).player_states().at(e@ as int) == Some(ps),
            final(self).comps_eq_except(*old(self), ComponentKind::PlayerState, e@ as int),
            final(self).resources_eq(*old(self)),
            final(self).spec_entity_counter() == old(self).spec_entity_counter(),
            final(self).wf(),
    {
        let r = self.player_states.insert(e, ps);
        proof {
            assert(r is Ok);
            assert forall|k2: ComponentKind, i: int|
                !(k2 == ComponentKind::PlayerState && i == e@ as int) implies #[trigger] self.comp_at(
                k2,
                i,
            ) == old(self).comp_at(k2, i) by {}
            assert forall|k2: ComponentKind, i: int|
                i >= self.spec_entity_counter() implies #[trigger] self.comp_at(k2, i) is None by {
                assert(old(self).comp_at(k2, i) is None);
                assert(self.comp_at(k2, i) == old(self).comp_at(k2, i));
            }
        }
    }
}


/// Spawning one card entity (a card identity plus a single zone marker)
/// leaves every hand and player view unchanged and grows exactly the view
/// of its zone.
pub proof fn lemma_game_view_after_card_spawn(w1: System, w2: System, cid: CardId, zone: Component)
    requires
        w2.spec_entity_counter() == w1.spec_entity_counter() + 1,
        zone is InDeck || zone is Faith,
        w2.comp_at(ComponentKind::CardId, w1.spec_entity_counter() as int) == Some(
            Component::CardId(cid),
        ),
        w2.comp_at(zone.kind(), w1.spec_entity_counter() as int) == Some(zone),
        forall|k: ComponentKind|
            k != ComponentKind::CardId && k != zone.kind() ==> #[trigger] w2.comp_at(
                k,
                w1.spec_entity_counter() as int,
            ) is None,
        forall|k: ComponentKind, i: int|
            i != w1.spec_entity_counter() as int ==> #[trigger] w2.comp_at(k, i) == w1.comp_at(
                k,
                i,
            ),
    ensures
        forall|p2: PlayerId| #[trigger] w2.player_entity_ids(p2) == w1.player_entity_ids(p2),
        forall|p2: PlayerId| #[trigger] w2.in_hand_ids(p2) == w1.in_hand_ids(p2),
        w2.occupied_hand_ids() == w1.occupied_hand_ids(),
        zone is InDeck ==> w2.occupied_deck_ids().len() == w1.occupied_deck_ids().len() + 1
            && forall|p2: PlayerId| #[trigger] w2.faith_ids(p2) == w1.faith_ids(p2),
        zone matches Component::Faith(f) ==> w2.occupied_deck_ids() == w1.occupied_deck_ids()
            && w2.faith_ids(f.0).len() == w1.faith_ids(f.0).len() + 1 && w2.faith_ids(
            f.0.spec_opp(),
        ) == w1.faith_ids(f.0.spec_opp()),
{
    let n1 = w1.spec_entity_counter() as int;
    let n2 = n1 + 1;
    assert forall|i: int| i != n1 implies #[trigger] w2.players().at(i) == w1.players().at(i) by {
        assert(w2.comp_at(ComponentKind::Player, i) == w1.comp_at(ComponentKind::Player, i));
    }
    assert(w2.players().at(n1) is None) by {
        assert(w2.comp_at(ComponentKind::Player, n1) is None);
    }
    assert forall|i: int| i != n1 implies #[trigger] w2.in_hands().at(i) == w1.in_hands().at(i) by {
        assert(w2.comp_at(ComponentKind::InHand, i) == w1.comp_at(ComponentKind::InHand, i));
    }
    assert(w2.in_hands().at(n1) is None) by {
        assert(w2.comp_at(ComponentKind::InHand, n1) is None);
    }
    assert forall|i: int| i != n1 implies #[trigger] w2.in_decks().at(i) == w1.in_decks().at(i) by {
        assert(w2.comp_at(ComponentKind::InDeck, i) == w1.comp_at(ComponentKind::InDeck, i));
    }
    assert forall|i: int| i != n1 implies #[trigger] w2.faiths().at(i) == w1.faiths().at(i) by {
        assert(w2.comp_at(ComponentKind::Faith, i) == w1.comp_at(ComponentKind::Faith, i));
    }
    assert forall|p2: PlayerId| #[trigger] w2.player_entity_ids(p2) == w1.player_entity_ids(p2) by {
        crate::store::lemma_ids_where_extend(
            |i: int| w1.players().at(i) == Some(p2),
            |i: int| w2.players().at(i) == Some(p2),
            n1,
            n2,
        );
    }
    assert forall|p2: PlayerId| #[trigger] w2.in_hand_ids(p2) == w1.in_hand_ids(p2) by {
        crate::store::lemma_ids_where_extend(
            |i: int| w1.in_hands().at(i) == Some(InHand(p2)),
            |i: int| w2.in_hands().at(i) == Some(InHand(p2)),
            n1,
            n2,
        );
    }
    assert(w2.occupied_hand_ids() == w1.occupied_hand_ids()) by {
        crate::store::lemma_ids_where_extend(
            |i: int| w1.in_hands().at(i) is Some,
            |i: int| w2.in_hands().at(i) is Some,
            n1,
            n2,
        );
    }
    if zone is InDeck {
        assert(w2.in_decks().at(n1) is Some) by {
            assert(w2.comp_at(ComponentKind::InDeck, n1) == Some(zone));
        }
        assert(w2.occupied_deck_ids().len() == w1.occupied_deck_ids().len() + 1) by {
            crate::store::lemma_ids_where_congruent(
                |i: int| w2.in_decks().at(i) is Some,
                |i: int| w1.in_decks().at(i) is Some,
                n1,
            );
            assert(ids_where(|i: int| w2.in_decks().at(i) is Some, n2) == ids_where(
                |i: int| w2.in_decks().at(i) is Some,
                n1,
            ).push(n1 as u32));
        }
        assert(w2.faiths().at(n1) is None) by {
            assert(w2.comp_at(ComponentKind::Faith, n1) is None);
        }
        assert forall|p2: PlayerId| #[trigger] w2.faith_ids(p2) == w1.faith_ids(p2) by {
            crate::store::lemma_ids_where_extend(
                |i: int| w1.faiths().at(i) == Some(Faith(p2)),
                |i: int| w2.faiths().at(i) == Some(Faith(p2)),
                n1,
                n2,
            );
        }
    }
    if let Component::Faith(f) = zone {
        assert(w2.in_decks().at(n1) is None) by {
            assert(w2.comp_at(ComponentKind::InDeck, n1) is None);
        }
        assert(w2.occupied_deck_ids() == w1.occupied_deck_ids()) by {
            crate::store::lemma_ids_where_extend(
                |i: int| w1.in_decks().at(i) is Some,
                |i: int| w2.in_decks().at(i) is Some,
                n1,
                n2,
            );
        }
        assert(w2.faiths().at(n1) == Some(f)) by {
            assert(w2.comp_at(ComponentKind::Faith, n1) == Some(zone));
        }
        assert(w2.faith_ids(f.0).len() == w1.faith_ids(f.0).len() + 1) by {
            crate::store::lemma_ids_where_congruent(
                |i: int| w2.faiths().at(i) == Some(Faith(f.0)),
                |i: int| w1.faiths().at(i) == Some(Faith(f.0)),
                n1,
            );
            assert(ids_where(|i: int| w2.faiths().at(i) == Some(Faith(f.0)), n2) == ids_where(
                |i: int| w2.faiths().at(i) == Some(Faith(f.0)),
                n1,
            ).push(n1 as u32));
        }
        assert(w2.faith_ids(f.0.spec_opp()) == w1.faith_ids(f.0.spec_opp())) by {
            crate::player::opp_is_involutive(f.0);
            crate::store::lemma_ids_where_extend(
                |i: int| w1.faiths().at(i) == Some(Faith(f.0.spec_opp())),
                |i: int| w2.faiths().at(i) == Some(Faith(f.0.spec_opp())),
                n1,
                n2,
            );
        }
    }
}


impl System {
    /// Read-only view of the player state on entity `e`.
    pub fn get_player_state_ref(&self, e: Entity) -> (r: Option<&PlayerState>)
        ensures
            match r {
                Some(ps) => self.player_states().at(e@ as int) == Some(*ps),
                None => self.player_states().at(e@ as int) is None,
            },
    {
        self.player_states.get(e)
    }

    /// Read-only view of the debug log resource.
    pub fn log_ref(&self) -> (r: Option<&DebugLog>)
        ensures
            match r {
                Some(l) => self.spec_log() == Some(*l),
                None => self.spec_log() is None,
            },
    {
        self.log.as_ref()
    }
}


/// In a well-formed game, each player's entity carries that player's
/// marker, and the two entities are distinct.
pub proof fn lemma_player_entities_distinct(w: System)
    requires
        w.game_wf(),
    ensures
        w.players().at(w.player_entity(PlayerId::Player0)) == Some(PlayerId::Player0),
        w.players().at(w.player_entity(PlayerId::Player1)) == Some(PlayerId::Player1),
        w.player_entity(PlayerId::Player0) != w.player_entity(PlayerId::Player1),
{
    let n = w.spec_entity_counter() as int;
    assert forall|p2: PlayerId|
        w.player_entity_ids(p2).len() > 0 implies w.players().at(
        #[trigger] w.player_entity(p2),
    ) == Some(p2) by {
        let pl = |i: int| w.players().at(i) == Some(p2);
        crate::store::lemma_ids_where_members(pl, n);
        assert(w.player_entity_ids(p2) == ids_where(pl, n));
        assert(pl(w.player_entity_ids(p2)[0] as int));
    }
}

} // verus!
