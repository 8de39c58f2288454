use std::collections::hash_map;
use std::collections::HashMap;
use vstd::prelude::*;
use vstd::std_specs::iter::IteratorSpec;

verus! {

broadcast use vstd::std_specs::hash::group_hash_axioms;

/// An entity is nothing but an identifier: it carries no data of its own and
/// only serves as a key into component tables.
pub type Entity = usize;

/// A table that holds, for one kind of component, the value of each entity
/// that has one.
pub struct FunctionalTable<C> {
    name: String,
    map: HashMap<Entity, C>,
}

impl<C> View for FunctionalTable<C> {
    type V = Map<Entity, C>;

    /// The table as a mathematical map from entities to component values.
    closed spec fn view(&self) -> Map<Entity, C> {
        self.map@
    }
}

impl<C> FunctionalTable<C> {
    /// The diagnostic name the table was created with.
    pub closed spec fn label(&self) -> Seq<char> {
        self.name@
    }

    /// Creates an empty table that carries `name` for diagnostics.
    pub fn new(name: String) -> (table: Self)
        ensures
            table@ == Map::<Entity, C>::empty(),
            table.label() == name@,
    {
        FunctionalTable { name, map: HashMap::new() }
    }

    /// The name the table was created with.
    pub fn name(&self) -> (name: &String)
        ensures
            name@ == self.label(),
    {
        &self.name
    }

    /// Stores `v` as the component of `e`, replacing any earlier value.
    pub fn set(&mut self, e: Entity, v: C)
        ensures
            final(self)@ == old(self)@.insert(e, v),
            final(self).label() == old(self).label(),
    {
        self.map.insert(e, v);
    }

    /// Tells whether `e` has a component in this table.
    pub fn contains(&self, e: Entity) -> (present: bool)
        ensures
            present == self@.contains_key(e),
    {
        self.map.contains_key(&e)
    }

    /// The component of `e`, which must have one.
    pub fn get(&self, e: Entity) -> (c: &C)
        requires
            self@.contains_key(e),
        ensures
            *c == self@[e],
    {
        let found = self.map.get(&e);
        found.unwrap()
    }

    /// Walks over all entries of the table, each exactly once, in no
    /// particular order.
    pub fn iter(&self) -> (it: hash_map::Iter<'_, Entity, C>)
        ensures
            entries_of(it.remaining(), self@),
            it.obeys_prophetic_iter_laws(),
            it.decrease() is Some,
            it.initial_value_relation(&it),
    {
        self.map.iter()
    }

    /// Replaces the component of every entity in the table by what `f` makes
    /// of the entity and its component as it was before the call. No entity
    /// enters or leaves the table.
    pub fn apply<F>(&mut self, f: &F) where F: Fn(Entity, &C) -> C
        requires
            forall|e: Entity| #[trigger]
                old(self)@.contains_key(e) ==> f.requires((e, &old(self)@[e])),
        ensures
            rewritten(f, old(self)@, final(self)@),
            final(self).label() == old(self).label(),
    {
        let mut next: HashMap<Entity, C> = HashMap::new();
        assert(self.map@ == old(self)@);
        let it = self.map.iter();
        let ghost items = it.remaining();
        for entry in walk: it
            invariant
                walk.seq() == items,
                entries_of(items, self.map@),
                forall|e: Entity| #[trigger]
                    self.map@.contains_key(e) ==> f.requires((e, &self.map@[e])),
                forall|e: Entity| #[trigger]
                    next@.contains_key(e) <==> exists|i: int|
                        0 <= i < walk.index() && *(#[trigger] items[i]).0 == e,
                forall|e: Entity| #[trigger]
                    next@.contains_key(e) ==> f.ensures((e, &self.map@[e]), next@[e]),
        {
            let (e, c) = entry;
            let new_c = f(*e, c);
            next.insert(*e, new_c);
        }
        proof {
            assert forall|e: Entity| self.map@.contains_key(e) implies next@.contains_key(e) by {
                let i = choose|i: int| 0 <= i < items.len() && items[i] == (&e, &self.map@[e]);
                assert(*items[i].0 == e);
            }
            assert(next@.dom() =~= self.map@.dom());
        }
        self.map = next;
    }
}

/// `after` has the entities of `before`, each with a component that `f`
/// returns for the entity and its component in `before`.
pub open spec fn rewritten<C, F: Fn(Entity, &C) -> C>(
    f: &F,
    before: Map<Entity, C>,
    after: Map<Entity, C>,
) -> bool {
    &&& after.dom() == before.dom()
    &&& forall|e: Entity|
        #![trigger before.contains_key(e)]
        #![trigger after[e]]
        before.contains_key(e) ==> f.ensures((e, &before[e]), after[e])
}

/// `items` lists the entries of `m`: every entry once and nothing else.
pub open spec fn entries_of<C>(items: Seq<(&Entity, &C)>, m: Map<Entity, C>) -> bool {
    &&& items.no_duplicates()
    &&& items.len() == m.dom().len()
    &&& forall|i: int|
        0 <= i < items.len() ==> m.contains_key(*(#[trigger] items[i]).0) && m[*items[i].0]
            == *items[i].1
    &&& forall|e: Entity| #[trigger] m.contains_key(e) ==> items.contains((&e, &m[e]))
}

/// Reading an entity right after writing it gives back what was written:
/// where `after` is `before` with `v` set for `e`, `e` has a component in
/// `after` and it is `v`. The write leaves every other entity as it was.
pub proof fn lemma_get_after_set<C>(
    before: FunctionalTable<C>,
    after: FunctionalTable<C>,
    e: Entity,
    v: C,
)
    requires
        after@ == before@.insert(e, v),
    ensures
        after@.contains_key(e),
        after@[e] == v,
        forall|other: Entity|
            other != e ==> (#[trigger] after@.contains_key(other) <==> before@.contains_key(other)),
        forall|other: Entity|
            other != e && before@.contains_key(other) ==> #[trigger] after@[other] == before@[other],
{
}

/// During a bulk update no entity sees the new value of another one: where
/// `f` computes `g`, the table after the update is the table before it with
/// `g` applied to each entry, whatever the order in which they were visited.
pub proof fn lemma_apply_of_function<C, F: Fn(Entity, &C) -> C>(
    f: &F,
    g: spec_fn(Entity, C) -> C,
    before: Map<Entity, C>,
    after: Map<Entity, C>,
)
    requires
        rewritten(f, before, after),
        forall|e: Entity, c: C, r: C| #[trigger] f.ensures((e, &c), r) ==> r == g(e, c),
    ensures
        after == Map::new(|e: Entity| before.contains_key(e), |e: Entity| g(e, before[e])),
{
    let expected = Map::new(|e: Entity| before.contains_key(e), |e: Entity| g(e, before[e]));
    assert(after.dom() =~= expected.dom());
    assert(after =~= expected);
}

} // verus!
