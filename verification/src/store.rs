//! Entity/component store: generic keyed storage for typed facts
//! ("components") attached to integer entity identifiers, plus singleton
//! "resource" slots for global, non-entity state.
//!
//! Entity identifiers are allocated monotonically and never reused, so a
//! per-component-type storage is an arena indexed by the entity identifier:
//! a growable array of optional values.

use vstd::prelude::*;

verus! {

/// An opaque integer identifier with no inherent data; a handle into the
/// component store.
#[derive(Debug, Clone, Copy, PartialEq, Eq, Hash, Structural)]
pub struct Entity(u32);

impl View for Entity {
    type V = u32;

    closed spec fn view(&self) -> u32 {
        self.0
    }
}

impl Entity {
    pub fn id(self) -> (r: u32)
        ensures
            r == self@,
    {
        self.0
    }

    pub fn from_id(id: u32) -> (r: Entity)
        ensures
            r@ == id,
    {
        Entity(id)
    }
}

impl From<u32> for Entity {
    fn from(id: u32) -> (r: Entity)
        ensures
            r@ == id,
    {
        Entity(id)
    }
}

impl vstd::std_specs::convert::FromSpecImpl<u32> for Entity {
    open spec fn obeys_from_spec() -> bool {
        true
    }

    closed spec fn from_spec(id: u32) -> Entity {
        Entity(id)
    }
}

/// Per-component-type storage: at most one value per entity.
///
/// The store is an arena indexed by entity identifier; a slot that was
/// never written, or whose component was removed, holds nothing.
pub struct Storage<V> {
    slots: Vec<Option<V>>,
}

impl<V> Storage<V> {
    /// The component attached to entity `e`, if any.
    pub closed spec fn at(self, e: int) -> Option<V> {
        if 0 <= e < self.slots@.len() {
            self.slots@[e]
        } else {
            None
        }
    }

    pub fn new() -> (r: Storage<V>)
        ensures
            forall|i: int| r.at(i) is None,
    {
        Storage { slots: Vec::new() }
    }

    /// Attaches a component to `e`; fails if one already exists for `e`.
    pub fn insert(&mut self, e: Entity, v: V) -> (r: Result<(), V>)
        ensures
            r is Ok <==> old(self).at(e@ as int) is None,
            r is Ok ==> final(self).at(e@ as int) == Some(v),
            r is Err ==> *final(self) == *old(self) && r == Err::<(), V>(v),
            forall|i: int| i != e@ as int ==> final(self).at(i) == old(self).at(i),
    {
        let idx = e.id() as usize;
        if idx < self.slots.len() && self.slots[idx].is_some() {
            return Err(v);
        }
        while self.slots.len() <= idx
            invariant
                forall|i: int|
                    #![trigger self.at(i)]
                    #![trigger old(self).at(i)]
                    self.at(i) == old(self).at(i),
            decreases idx + 1 - self.slots.len(),
        {
            self.slots.push(None);
        }
        self.slots[idx] = Some(v);
        Ok(())
    }

    /// Detaches and returns the component of `e`, if present.
    pub fn remove(&mut self, e: Entity) -> (r: Option<V>)
        ensures
            r == old(self).at(e@ as int),
            final(self).at(e@ as int) is None,
            forall|i: int| i != e@ as int ==> final(self).at(i) == old(self).at(i),
    {
        let idx = e.id() as usize;
        if idx < self.slots.len() {
            let mut taken: Option<V> = None;
            self.slots.set_and_swap(idx, &mut taken);
            taken
        } else {
            None
        }
    }

    pub fn get(&self, e: Entity) -> (r: Option<&V>)
        ensures
            match r {
                Some(v) => self.at(e@ as int) == Some(*v),
                None => self.at(e@ as int) is None,
            },
    {
        let idx = e.id() as usize;
        if idx < self.slots.len() {
            self.slots[idx].as_ref()
        } else {
            None
        }
    }

    pub fn contains(&self, e: Entity) -> (r: bool)
        ensures
            r == (self.at(e@ as int) is Some),
    {
        self.get(e).is_some()
    }
}

/// The identifiers in `0..n` that satisfy `pred`, in ascending order.
///
/// Queries over the store and the derived counts (hand sizes, deck sizes)
/// are all stated in terms of this sequence.
pub open spec fn ids_where(pred: spec_fn(int) -> bool, n: int) -> Seq<u32>
    decreases n,
{
    if n <= 0 {
        Seq::empty()
    } else if pred(n - 1) {
        ids_where(pred, n - 1).push((n - 1) as u32)
    } else {
        ids_where(pred, n - 1)
    }
}

/// Predicates that agree below `n` select the same identifiers.
pub proof fn lemma_ids_where_congruent(p1: spec_fn(int) -> bool, p2: spec_fn(int) -> bool, n: int)
    requires
        forall|i: int| 0 <= i < n ==> #[trigger] p1(i) == #[trigger] p2(i),
    ensures
        ids_where(p1, n) == ids_where(p2, n),
    decreases n,
{
    if n > 0 {
        lemma_ids_where_congruent(p1, p2, n - 1);
    }
}

/// Changing the predicate's verdict at one identifier shifts the count of
/// selected identifiers by exactly the change at that identifier.
pub proof fn lemma_ids_where_update(p1: spec_fn(int) -> bool, p2: spec_fn(int) -> bool, e: int, n: int)
    requires
        forall|i: int| 0 <= i < n && i != e ==> #[trigger] p1(i) == #[trigger] p2(i),
    ensures
        !(0 <= e < n) ==> ids_where(p1, n) == ids_where(p2, n),
        0 <= e < n ==> ids_where(p2, n).len() == ids_where(p1, n).len() - (
        if p1(e) {
            1int
        } else {
            0int
        }) + (
        if p2(e) {
            1int
        } else {
            0int
        }),
    decreases n,
{
    if n > 0 {
        lemma_ids_where_update(p1, p2, e, n - 1);
        if !(0 <= e < n - 1) {
            assert(ids_where(p1, n - 1) == ids_where(p2, n - 1)) by {
                lemma_ids_where_congruent(p1, p2, n - 1);
            }
        }
    }
}

/// Every selected identifier lies below `n` and satisfies the predicate,
/// and every identifier below `n` that satisfies the predicate is selected.
pub proof fn lemma_ids_where_members(pred: spec_fn(int) -> bool, n: int)
    requires
        n <= u32::MAX + 1,
    ensures
        forall|j: int|
            0 <= j < ids_where(pred, n).len() ==> #[trigger] pred(ids_where(pred, n)[j] as int)
                && 0 <= ids_where(pred, n)[j] < n,
        forall|x: int|
            0 <= x < n && #[trigger] pred(x) ==> ids_where(pred, n).contains(x as u32),
        ids_where(pred, n).len() <= (if n >= 0 {
            n
        } else {
            0
        }),
    decreases n,
{
    if n > 0 {
        lemma_ids_where_members(pred, n - 1);
        assert forall|x: int| 0 <= x < n && #[trigger] pred(x) implies ids_where(
            pred,
            n,
        ).contains(x as u32) by {
            if x < n - 1 {
                let s = ids_where(pred, n - 1);
                let j = choose|j: int| 0 <= j < s.len() && s[j] == x as u32;
                assert(ids_where(pred, n)[j] == x as u32);
            } else {
                assert(ids_where(pred, n).last() == x as u32);
            }
        }
    }
}


/// Growing the scanned range past `n1` with identifiers that never match
/// selects the same identifiers.
pub proof fn lemma_ids_where_extend(p1: spec_fn(int) -> bool, p2: spec_fn(int) -> bool, n1: int, n2: int)
    requires
        n1 <= n2,
        forall|i: int| 0 <= i < n1 ==> #[trigger] p1(i) == #[trigger] p2(i),
        forall|i: int| n1 <= i < n2 ==> !#[trigger] p2(i),
    ensures
        ids_where(p2, n2) == ids_where(p1, n1),
    decreases n2 - n1,
{
    if n2 > n1 {
        lemma_ids_where_extend(p1, p2, n1, n2 - 1);
    } else {
        lemma_ids_where_congruent(p1, p2, n1);
    }
}

/// If no identifier below `n` satisfies the predicate, none is selected.
pub proof fn lemma_ids_where_empty(pred: spec_fn(int) -> bool, n: int)
    requires
        forall|i: int| 0 <= i < n ==> !#[trigger] pred(i),
    ensures
        ids_where(pred, n) == Seq::<u32>::empty(),
    decreases n,
{
    if n > 0 {
        lemma_ids_where_empty(pred, n - 1);
    }
}


/// A predicate that holds exactly on two ranges selects exactly their
/// combined length of identifiers.
pub proof fn lemma_ids_where_split(
    pred: spec_fn(int) -> bool,
    a1: int,
    b1: int,
    a2: int,
    b2: int,
    n: int,
)
    requires
        0 <= a1 <= b1 <= a2 <= b2 <= n,
        forall|i: int| 0 <= i < n ==> (#[trigger] pred(i) <==> (a1 <= i < b1 || a2 <= i < b2)),
    ensures
        ids_where(pred, n).len() == (b1 - a1) + (b2 - a2),
    decreases n,
{
    if n > 0 {
        if n - 1 >= b2 {
            lemma_ids_where_split(pred, a1, b1, a2, b2, n - 1);
        } else if n - 1 >= a2 {
            lemma_ids_where_split(pred, a1, b1, a2, n - 1, n - 1);
        } else if n - 1 >= b1 {
            lemma_ids_where_split(pred, a1, b1, n - 1, n - 1, n - 1);
        } else if n - 1 >= a1 {
            lemma_ids_where_split(pred, a1, n - 1, n - 1, n - 1, n - 1);
        } else {
            lemma_ids_where_split(pred, n - 1, n - 1, n - 1, n - 1, n - 1);
        }
    }
}

} // verus!
