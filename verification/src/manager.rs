use crate::ecs::{entries_of, Entity, FunctionalTable};
use vstd::prelude::*;
use vstd::std_specs::iter::IteratorSpec;

verus! {

/// The root of the simulation state: the counter that hands out entities and
/// one table for each kind of component. `V` is the type of the vector-valued
/// components, `S` that of the scalar ones.
///
/// Having an acceleration implies having a velocity, a position and a mass;
/// having a velocity implies having a position. The update passes rely on
/// that, see [`Manager::dependencies_hold`].
pub struct Manager<V, S> {
    entities_numbers: usize,
    pub table_position: FunctionalTable<V>,
    pub table_velocity: FunctionalTable<V>,
    pub table_acceleration: FunctionalTable<V>,
    pub table_mass: FunctionalTable<S>,
}

impl<V, S> Manager<V, S> {
    /// How many entities have been created so far, which is also the
    /// identifier that the next one will get.
    pub closed spec fn created(&self) -> nat {
        self.entities_numbers as nat
    }

    /// The positions, as a map from entities to vectors.
    pub closed spec fn positions(&self) -> Map<Entity, V> {
        self.table_position@
    }

    /// The velocities, as a map from entities to vectors.
    pub closed spec fn velocities(&self) -> Map<Entity, V> {
        self.table_velocity@
    }

    /// The accelerations, as a map from entities to vectors.
    pub closed spec fn accelerations(&self) -> Map<Entity, V> {
        self.table_acceleration@
    }

    /// The masses, as a map from entities to scalars.
    pub closed spec fn masses(&self) -> Map<Entity, S> {
        self.table_mass@
    }

    /// `e` has a component of some kind.
    pub open spec fn has_component(&self, e: Entity) -> bool {
        ||| self.positions().contains_key(e)
        ||| self.velocities().contains_key(e)
        ||| self.accelerations().contains_key(e)
        ||| self.masses().contains_key(e)
    }

    /// Every entity that has a component has been created by this manager.
    /// It holds as long as components are only given to entities that
    /// [`Manager::new_entity`] or [`Manager::spawn`] returned.
    pub open spec fn all_created(&self) -> bool {
        forall|e: Entity| #[trigger] self.has_component(e) ==> e < self.created()
    }

    /// The components depend on each other as the update passes expect.
    pub open spec fn dependencies_hold(&self) -> bool {
        &&& self.accelerations().dom().subset_of(self.velocities().dom())
        &&& self.accelerations().dom().subset_of(self.positions().dom())
        &&& self.accelerations().dom().subset_of(self.masses().dom())
        &&& self.velocities().dom().subset_of(self.positions().dom())
    }

    /// A manager with no entity and four empty tables.
    pub fn new() -> (mng: Self)
        ensures
            mng.created() == 0,
            mng.positions() == Map::<Entity, V>::empty(),
            mng.velocities() == Map::<Entity, V>::empty(),
            mng.accelerations() == Map::<Entity, V>::empty(),
            mng.masses() == Map::<Entity, S>::empty(),
    {
        Manager {
            entities_numbers: 0,
            table_position: FunctionalTable::new("position".to_string()),
            table_velocity: FunctionalTable::new("velocity".to_string()),
            table_acceleration: FunctionalTable::new("acceleration".to_string()),
            table_mass: FunctionalTable::new("mass".to_string()),
        }
    }

    /// The number of entities created so far.
    pub fn entity_count(&self) -> (n: usize)
        ensures
            n == self.created(),
    {
        self.entities_numbers
    }

    /// Creates an entity: takes the next unused identifier. The identifiers
    /// start at 0 and go up by one with each call.
    pub fn new_entity(&mut self) -> (e: Entity)
        requires
            old(self).created() < usize::MAX,
        ensures
            e == old(self).created(),
            final(self).created() == old(self).created() + 1,
            final(self).positions() == old(self).positions(),
            final(self).velocities() == old(self).velocities(),
            final(self).accelerations() == old(self).accelerations(),
            final(self).masses() == old(self).masses(),
            old(self).all_created() ==> !old(self).has_component(e) && final(self).all_created(),
    {
        let res = self.entities_numbers;
        self.entities_numbers = self.entities_numbers + 1;
        proof {
            if old(self).all_created() {
                assert(old(self).has_component(res) ==> res < old(self).created());
                assert forall|other: Entity| #[trigger]
                    self.has_component(other) implies other < self.created() by {
                    assert(old(self).has_component(other));
                }
            }
        }
        res
    }

    /// Tells whether the components depend on each other as the update
    /// passes expect.
    pub fn validate_dependencies(&self) -> (ok: bool)
        ensures
            ok == self.dependencies_hold(),
    {
        let it = self.table_acceleration.iter();
        let ghost items = it.remaining();
        for entry in walk: it
            invariant
                walk.seq() == items,
                entries_of(items, self.accelerations()),
                forall|i: int|
                    0 <= i < walk.index() ==> {
                        let e = *(#[trigger] items[i]).0;
                        &&& self.velocities().contains_key(e)
                        &&& self.positions().contains_key(e)
                        &&& self.masses().contains_key(e)
                    },
        {
            let (e, _) = entry;
            if !self.table_velocity.contains(*e) || !self.table_position.contains(*e)
                || !self.table_mass.contains(*e) {
                return false;
            }
        }
        let it = self.table_velocity.iter();
        let ghost moving = it.remaining();
        for entry in walk: it
            invariant
                walk.seq() == moving,
                entries_of(moving, self.velocities()),
                entries_of(items, self.accelerations()),
                forall|i: int|
                    0 <= i < items.len() ==> {
                        let e = *(#[trigger] items[i]).0;
                        &&& self.velocities().contains_key(e)
                        &&& self.positions().contains_key(e)
                        &&& self.masses().contains_key(e)
                    },
                forall|i: int|
                    0 <= i < walk.index() ==> self.positions().contains_key(
                        *(#[trigger] moving[i]).0,
                    ),
        {
            let (e, _) = entry;
            if !self.table_position.contains(*e) {
                return false;
            }
        }
        proof {
            assert forall|e: Entity| self.accelerations().contains_key(e) implies {
                &&& self.velocities().contains_key(e)
                &&& self.positions().contains_key(e)
                &&& self.masses().contains_key(e)
            } by {
                let i = choose|i: int|
                    0 <= i < items.len() && items[i] == (&e, &self.accelerations()[e]);
                assert(*items[i].0 == e);
            }
            assert forall|e: Entity| self.velocities().contains_key(e) implies self.positions().contains_key(
                e,
            ) by {
                let i = choose|i: int|
                    0 <= i < moving.len() && moving[i] == (&e, &self.velocities()[e]);
                assert(*moving[i].0 == e);
            }
        }
        true
    }

    /// Creates an entity and gives it all four components at once, so that
    /// the dependencies between the components hold of it from the start.
    pub fn spawn(&mut self, position: V, velocity: V, acceleration: V, mass: S) -> (e: Entity)
        requires
            old(self).created() < usize::MAX,
        ensures
            e == old(self).created(),
            final(self).created() == old(self).created() + 1,
            final(self).positions() == old(self).positions().insert(e, position),
            final(self).velocities() == old(self).velocities().insert(e, velocity),
            final(self).accelerations() == old(self).accelerations().insert(e, acceleration),
            final(self).masses() == old(self).masses().insert(e, mass),
            old(self).all_created() ==> !old(self).has_component(e) && final(self).all_created(),
            old(self).dependencies_hold() ==> final(self).dependencies_hold(),
    {
        let e = self.new_entity();
        self.table_position.set(e, position);
        self.table_velocity.set(e, velocity);
        self.table_acceleration.set(e, acceleration);
        self.table_mass.set(e, mass);
        proof {
            if old(self).all_created() {
                assert forall|other: Entity| #[trigger]
                    self.has_component(other) implies other < self.created() by {
                    if other != e {
                        assert(old(self).has_component(other));
                    }
                }
            }
        }
        e
    }
}

/// `after` is what the acceleration pass makes of the accelerations `before`:
/// the same entities, each with an acceleration that `accel_at` returns for
/// its position and its mass.
pub open spec fn accelerated<V, S, F: Fn(&V, &S) -> V>(
    accel_at: &F,
    positions: Map<Entity, V>,
    masses: Map<Entity, S>,
    before: Map<Entity, V>,
    after: Map<Entity, V>,
) -> bool {
    &&& after.dom() == before.dom()
    &&& forall|e: Entity|
        #![trigger before.contains_key(e)]
        #![trigger after[e]]
        before.contains_key(e) ==> accel_at.ensures((&positions[e], &masses[e]), after[e])
}

/// `accel_at` may be called for every entity that has an acceleration.
pub open spec fn can_accelerate<V, S, F: Fn(&V, &S) -> V>(
    accel_at: &F,
    positions: Map<Entity, V>,
    masses: Map<Entity, S>,
    accelerations: Map<Entity, V>,
) -> bool {
    forall|e: Entity| #[trigger]
        accelerations.contains_key(e) ==> accel_at.requires((&positions[e], &masses[e]))
}

/// `after` is what an integration pass makes of the values `before`: the same
/// entities; one that has a rate gets what `integrate` returns for its value,
/// its rate and `dt`, and any other keeps its value.
pub open spec fn integrated<V, S, F: Fn(&V, &V, &S) -> V>(
    integrate: &F,
    dt: &S,
    rates: Map<Entity, V>,
    before: Map<Entity, V>,
    after: Map<Entity, V>,
) -> bool {
    &&& after.dom() == before.dom()
    &&& forall|e: Entity|
        #![trigger before.contains_key(e)]
        #![trigger after[e]]
        before.contains_key(e) ==> if rates.contains_key(e) {
            integrate.ensures((&before[e], &rates[e], dt), after[e])
        } else {
            after[e] == before[e]
        }
}

/// `integrate` may be called for every entity that has a rate.
pub open spec fn can_integrate<V, S, F: Fn(&V, &V, &S) -> V>(
    integrate: &F,
    dt: &S,
    rates: Map<Entity, V>,
    values: Map<Entity, V>,
) -> bool {
    forall|e: Entity| #[trigger]
        rates.contains_key(e) ==> integrate.requires((&values[e], &rates[e], dt))
}

/// The update passes neither create an entity nor give or take a component:
/// a manager that has the same entities in each table as another, and the
/// same counter, keeps what held of the other's entities.
pub proof fn lemma_same_entities<V, S>(before: Manager<V, S>, after: Manager<V, S>)
    requires
        after.positions().dom() == before.positions().dom(),
        after.velocities().dom() == before.velocities().dom(),
        after.accelerations().dom() == before.accelerations().dom(),
        after.masses().dom() == before.masses().dom(),
        after.created() == before.created(),
    ensures
        before.dependencies_hold() ==> after.dependencies_hold(),
        before.all_created() ==> after.all_created(),
{
    if before.all_created() {
        assert forall|e: Entity| #[trigger] after.has_component(e) implies e < after.created() by {
            assert(before.has_component(e));
        }
    }
}

/// The integration step that the velocity pass and the position pass share:
/// for every entity in `rates`, replaces its value in `target` by what
/// `integrate` makes of that value, the rate and `dt`.
fn integrate_table<V, S, F>(
    target: &mut FunctionalTable<V>,
    rates: &FunctionalTable<V>,
    dt: &S,
    integrate: &F,
) where F: Fn(&V, &V, &S) -> V
    requires
        rates@.dom().subset_of(old(target)@.dom()),
        can_integrate(integrate, dt, rates@, old(target)@),
    ensures
        integrated(integrate, dt, rates@, old(target)@, final(target)@),
        final(target).label() == old(target).label(),
{
    let ghost before = target@;
    let it = rates.iter();
    let ghost items = it.remaining();
    for entry in walk: it
        invariant
            walk.seq() == items,
            entries_of(items, rates@),
            rates@.dom().subset_of(before.dom()),
            can_integrate(integrate, dt, rates@, before),
            target@.dom() == before.dom(),
            target.label() == old(target).label(),
            forall|i: int|
                0 <= i < walk.index() ==> integrate.ensures(
                    (&before[*(#[trigger] items[i]).0], items[i].1, dt),
                    target@[*items[i].0],
                ),
            forall|e: Entity|
                (forall|i: int| 0 <= i < walk.index() ==> *(#[trigger] items[i]).0 != e)
                    ==> #[trigger] target@[e] == before[e],
    {
        let (e, rate) = entry;
        proof {
            let k = walk.index();
            assert(items[k] == (e, rate));
            assert forall|i: int| 0 <= i < k implies *(#[trigger] items[i]).0 != *e by {
                if *items[i].0 == *e {
                    assert(*items[i].1 == rates@[*e]);
                    assert(items[i] == items[k]);
                }
            }
        }
        let value = target.get(*e);
        let new_value = integrate(value, rate, dt);
        target.set(*e, new_value);
    }
    proof {
        assert forall|e: Entity| #[trigger] before.contains_key(e) implies if rates@.contains_key(e) {
            integrate.ensures((&before[e], &rates@[e], dt), target@[e])
        } else {
            target@[e] == before[e]
        } by {
            if rates@.contains_key(e) {
                let i = choose|i: int| 0 <= i < items.len() && items[i] == (&e, &rates@[e]);
                assert(*items[i].0 == e);
            } else {
                assert forall|i: int| 0 <= i < items.len() implies *(#[trigger] items[i]).0 != e by {}
            }
        }
    }
}

/// The acceleration pass: gives every entity that has an acceleration a new
/// one, computed by `accel_at` from the entity's position and mass. The
/// acceleration it had does not count.
pub fn compute_acceleration<V, S, F>(mng: &mut Manager<V, S>, accel_at: &F) where
    F: Fn(&V, &S) -> V,

    requires
        old(mng).accelerations().dom().subset_of(old(mng).positions().dom()),
        old(mng).accelerations().dom().subset_of(old(mng).masses().dom()),
        can_accelerate(
            accel_at,
            old(mng).positions(),
            old(mng).masses(),
            old(mng).accelerations(),
        ),
    ensures
        accelerated(
            accel_at,
            old(mng).positions(),
            old(mng).masses(),
            old(mng).accelerations(),
            final(mng).accelerations(),
        ),
        final(mng).positions() == old(mng).positions(),
        final(mng).velocities() == old(mng).velocities(),
        final(mng).masses() == old(mng).masses(),
        final(mng).created() == old(mng).created(),
        old(mng).dependencies_hold() ==> final(mng).dependencies_hold(),
        old(mng).all_created() ==> final(mng).all_created(),
{
    let positions = &mng.table_position;
    let masses = &mng.table_mass;
    let comp = |e: Entity, _accel: &V| -> (new_accel: V)
        requires
            positions@.contains_key(e),
            masses@.contains_key(e),
            accel_at.requires((&positions@[e], &masses@[e])),
        ensures
            accel_at.ensures((&positions@[e], &masses@[e]), new_accel),
        {
            let pos = positions.get(e);
            let mass = masses.get(e);
            accel_at(pos, mass)
        };
    mng.table_acceleration.apply(&comp);
    proof {
        lemma_same_entities(*old(mng), *mng);
    }
}

/// The velocity pass: for every entity that has an acceleration, the new
/// velocity is what `integrate` makes of the velocity, the acceleration and
/// `dt`.
pub fn compute_velocity<V, S, F>(mng: &mut Manager<V, S>, dt: &S, integrate: &F) where
    F: Fn(&V, &V, &S) -> V,

    requires
        old(mng).accelerations().dom().subset_of(old(mng).velocities().dom()),
        can_integrate(integrate, dt, old(mng).accelerations(), old(mng).velocities()),
    ensures
        integrated(
            integrate,
            dt,
            old(mng).accelerations(),
            old(mng).velocities(),
            final(mng).velocities(),
        ),
        final(mng).positions() == old(mng).positions(),
        final(mng).accelerations() == old(mng).accelerations(),
        final(mng).masses() == old(mng).masses(),
        final(mng).created() == old(mng).created(),
        old(mng).dependencies_hold() ==> final(mng).dependencies_hold(),
        old(mng).all_created() ==> final(mng).all_created(),
{
    integrate_table(&mut mng.table_velocity, &mng.table_acceleration, dt, integrate);
    proof {
        lemma_same_entities(*old(mng), *mng);
    }
}

/// The position pass: for every entity that has a velocity, the new position
/// is what `integrate` makes of the position, the velocity and `dt`.
pub fn compute_position<V, S, F>(mng: &mut Manager<V, S>, dt: &S, integrate: &F) where
    F: Fn(&V, &V, &S) -> V,

    requires
        old(mng).velocities().dom().subset_of(old(mng).positions().dom()),
        can_integrate(integrate, dt, old(mng).velocities(), old(mng).positions()),
    ensures
        integrated(
            integrate,
            dt,
            old(mng).velocities(),
            old(mng).positions(),
            final(mng).positions(),
        ),
        final(mng).velocities() == old(mng).velocities(),
        final(mng).accelerations() == old(mng).accelerations(),
        final(mng).masses() == old(mng).masses(),
        final(mng).created() == old(mng).created(),
        old(mng).dependencies_hold() ==> final(mng).dependencies_hold(),
        old(mng).all_created() ==> final(mng).all_created(),
{
    integrate_table(&mut mng.table_position, &mng.table_velocity, dt, integrate);
    proof {
        lemma_same_entities(*old(mng), *mng);
    }
}

/// A tick may run on `mng`: each pass may call its function for every entity
/// it visits, whatever the pass before it has written.
pub open spec fn can_tick<V, S, A: Fn(&V, &S) -> V, I: Fn(&V, &V, &S) -> V>(
    mng: Manager<V, S>,
    dt: &S,
    accel_at: &A,
    integrate: &I,
) -> bool {
    &&& can_accelerate(accel_at, mng.positions(), mng.masses(), mng.accelerations())
    &&& forall|accelerations: Map<Entity, V>| #[trigger]
        accelerated(accel_at, mng.positions(), mng.masses(), mng.accelerations(), accelerations)
            ==> can_integrate(integrate, dt, accelerations, mng.velocities())
    &&& forall|accelerations: Map<Entity, V>, velocities: Map<Entity, V>|
        accelerated(accel_at, mng.positions(), mng.masses(), mng.accelerations(), accelerations)
            && #[trigger] integrated(integrate, dt, accelerations, mng.velocities(), velocities)
            ==> can_integrate(integrate, dt, velocities, mng.positions())
}

/// `after` is `before` one tick later: the new accelerations come from the old
/// positions and the masses, the new velocities from the old velocities and
/// the new accelerations, the new positions from the old positions and the
/// new velocities. Masses and the entity counter stay.
pub open spec fn ticked<V, S, A: Fn(&V, &S) -> V, I: Fn(&V, &V, &S) -> V>(
    before: Manager<V, S>,
    after: Manager<V, S>,
    dt: &S,
    accel_at: &A,
    integrate: &I,
) -> bool {
    &&& accelerated(
        accel_at,
        before.positions(),
        before.masses(),
        before.accelerations(),
        after.accelerations(),
    )
    &&& integrated(integrate, dt, after.accelerations(), before.velocities(), after.velocities())
    &&& integrated(integrate, dt, after.velocities(), before.positions(), after.positions())
    &&& after.masses() == before.masses()
    &&& after.created() == before.created()
}

/// One tick of the simulation: the acceleration pass, then the velocity
/// pass, then the position pass. The order matters: the velocities are
/// integrated from the accelerations that this tick has just computed, and the
/// positions from the velocities that it has just computed.
pub fn run_tick<V, S, A, I>(mng: &mut Manager<V, S>, dt: &S, accel_at: &A, integrate: &I) where
    A: Fn(&V, &S) -> V,
    I: Fn(&V, &V, &S) -> V,

    requires
        old(mng).dependencies_hold(),
        can_tick(*old(mng), dt, accel_at, integrate),
    ensures
        ticked(*old(mng), *final(mng), dt, accel_at, integrate),
        final(mng).dependencies_hold(),
        old(mng).all_created() ==> final(mng).all_created(),
{
    compute_acceleration(mng, accel_at);
    compute_velocity(mng, dt, integrate);
    compute_position(mng, dt, integrate);
}

/// Functions that accept every argument can run a tick on every manager.
pub proof fn lemma_total_functions_can_tick<V, S, A: Fn(&V, &S) -> V, I: Fn(&V, &V, &S) -> V>(
    mng: Manager<V, S>,
    dt: &S,
    accel_at: &A,
    integrate: &I,
)
    requires
        forall|p: V, m: S| #[trigger] accel_at.requires((&p, &m)),
        forall|x: V, dx: V| #[trigger] integrate.requires((&x, &dx, dt)),
    ensures
        can_tick(mng, dt, accel_at, integrate),
{
}

/// Within one tick each pass works on what the pass before it has just
/// written. Where `accel_at` computes `accel_fn` and `integrate` computes
/// `step_fn`, an entity `e` that has an acceleration ends a tick with the
/// acceleration that `accel_fn` gives for its old position and its mass, the
/// velocity that `step_fn` gives for its old velocity and that new
/// acceleration, and the position that `step_fn` gives for its old position
/// and that new velocity.
pub proof fn lemma_tick_uses_fresh_values<V, S, A: Fn(&V, &S) -> V, I: Fn(&V, &V, &S) -> V>(
    before: Manager<V, S>,
    after: Manager<V, S>,
    dt: &S,
    accel_at: &A,
    integrate: &I,
    accel_fn: spec_fn(V, S) -> V,
    step_fn: spec_fn(V, V) -> V,
    e: Entity,
)
    requires
        before.dependencies_hold(),
        ticked(before, after, dt, accel_at, integrate),
        forall|p: V, m: S, a: V| #[trigger] accel_at.ensures((&p, &m), a) ==> a == accel_fn(p, m),
        forall|x: V, dx: V, y: V| #[trigger]
            integrate.ensures((&x, &dx, dt), y) ==> y == step_fn(x, dx),
        before.accelerations().contains_key(e),
    ensures
        after.accelerations()[e] == accel_fn(before.positions()[e], before.masses()[e]),
        after.velocities()[e] == step_fn(before.velocities()[e], after.accelerations()[e]),
        after.positions()[e] == step_fn(before.positions()[e], after.velocities()[e]),
{
}

} // verus!
