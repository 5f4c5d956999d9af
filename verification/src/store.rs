use crate::components::{Components, Player, Position, Renderable};
use specs::{Builder, Join, WorldExt};
use vstd::prelude::*;

verus! {

/// `specs::World`, carried as an opaque value.
#[verifier::external_type_specification]
#[verifier::external_body]
pub struct ExWorld(specs::World);

/// What a world holds: the components of each of its entities, in the order
/// in which the entities were created. An entity's id is its place in this
/// sequence.
pub uninterp spec fn world_rows(w: specs::World) -> Seq<Components>;

/// `out` are, in rising order of their ids, exactly the entities of `rows` that carry the
/// player's mark and a position, each with its position.
pub open spec fn is_controlled_join(rows: Seq<Components>, out: Seq<(u32, Position)>) -> bool {
    &&& forall|k: int|
        0 <= k < out.len() ==> (#[trigger] out[k]).0 < rows.len() && rows[out[k].0 as int].player.is_some()
            && rows[out[k].0 as int].position == Some(out[k].1)
    &&& forall|j: int, k: int| 0 <= j < k < out.len() ==> (#[trigger] out[j]).0 < (#[trigger] out[k]).0
    &&& forall|i: int|
        0 <= i < rows.len() && (#[trigger] rows[i]).controlled() ==> exists|k: int|
            0 <= k < out.len() && (#[trigger] out[k]).0 == i
}

/// `out` are, in rising order of their ids, exactly the entities of `rows`
/// that have a position and a renderable, each with both.
pub open spec fn is_drawable_join(rows: Seq<Components>, out: Seq<(u32, Position, Renderable)>) -> bool {
    &&& forall|k: int|
        0 <= k < out.len() ==> (#[trigger] out[k]).0 < rows.len() && rows[out[k].0 as int].position
            == Some(out[k].1) && rows[out[k].0 as int].renderable == Some(out[k].2)
    &&& forall|j: int, k: int| 0 <= j < k < out.len() ==> (#[trigger] out[j]).0 < (#[trigger] out[k]).0
    &&& forall|i: int|
        0 <= i < rows.len() && (#[trigger] rows[i]).drawable() ==> exists|k: int|
            0 <= k < out.len() && (#[trigger] out[k]).0 == i
}

/// How many entities a store takes on every machine.
pub const MAX_ENTITIES: u32 = 1_048_576;

/// The ids of the entities that have a position and a renderable.
pub open spec fn drawable_ids(rows: Seq<Components>) -> Set<int> {
    Set::new(|i: int| 0 <= i < rows.len() && rows[i].drawable())
}

/// The ids of the first `n` results of a query.
pub open spec fn found_ids(found: Seq<(u32, Position, Renderable)>, n: int) -> Set<int> {
    Set::new(|i: int| exists|k: int| 0 <= k < n && (#[trigger] found[k]).0 == i)
}

/// The entities of a game and their components, kept in a `specs::World`.
/// Entities are never deleted, so ids run from zero in the order of creation.
pub struct EntityStore {
    world: specs::World,
}

impl View for EntityStore {
    type V = Seq<Components>;

    closed spec fn view(&self) -> Seq<Components> {
        world_rows(self.world)
    }
}

/// `specs::World::new`, then `register` for each of the three component
/// kinds: the world holds no entity yet.
#[verifier::external_body]
fn world_new() -> (s: EntityStore)
    ensures
        world_rows(s.world) == Seq::<Components>::empty(),
{
    let mut world = specs::World::new();
    world.register::<Position>();
    world.register::<Renderable>();
    world.register::<Player>();
    EntityStore { world }
}

/// `create_entity`, `maybe_with` for each kind, `build`: with no entity ever
/// deleted the allocator hands out the next id, which is the number of
/// entities so far, and each component that is given is stored under it. The
/// bit sets of the outside crate refuse an id above their limit, which is
/// `MAX_ENTITIES` on a 32 bit machine and more on a larger one.
#[verifier::external_body]
fn world_spawn(s: &mut EntityStore, c: Components) -> (id: u32)
    requires
        world_rows(old(s).world).len() < MAX_ENTITIES,
    ensures
        id == world_rows(old(s).world).len(),
        world_rows(final(s).world) == world_rows(old(s).world).push(c),
{
    let builder = s.world.create_entity();
    builder.maybe_with(c.position).maybe_with(c.renderable).maybe_with(c.player).build().id()
}

/// `WriteStorage::insert` on the position storage, for the live entity with
/// this id: the position is stored, over an earlier one if there was one.
#[verifier::external_body]
fn world_set_position(s: &mut EntityStore, id: u32, p: Position)
    requires
        id < world_rows(old(s).world).len(),
    ensures
        world_rows(final(s).world) == world_rows(old(s).world).update(id as int, world_rows(old(s).world)[id as int].with_position(Some(p))),
{
    let entity = s.world.entities().entity(id);
    let _ = s.world.write_storage::<Position>().insert(entity, p);
}

/// `WriteStorage::insert` on the renderable storage, as for positions.
#[verifier::external_body]
fn world_set_renderable(s: &mut EntityStore, id: u32, r: Renderable)
    requires
        id < world_rows(old(s).world).len(),
    ensures
        world_rows(final(s).world) == world_rows(old(s).world).update(id as int, world_rows(old(s).world)[id as int].with_renderable(Some(r))),
{
    let entity = s.world.entities().entity(id);
    let _ = s.world.write_storage::<Renderable>().insert(entity, r);
}

/// `WriteStorage::insert` on the storage of player marks, as for positions.
#[verifier::external_body]
fn world_set_player(s: &mut EntityStore, id: u32)
    requires
        id < world_rows(old(s).world).len(),
    ensures
        world_rows(final(s).world) == world_rows(old(s).world).update(id as int, world_rows(old(s).world)[id as int].with_player(Some(Player))),
{
    let entity = s.world.entities().entity(id);
    let _ = s.world.write_storage::<Player>().insert(entity, Player);
}

/// `WriteStorage::remove` on the position storage: the entity has no
/// position afterwards.
#[verifier::external_body]
fn world_remove_position(s: &mut EntityStore, id: u32)
    requires
        id < world_rows(old(s).world).len(),
    ensures
        world_rows(final(s).world) == world_rows(old(s).world).update(id as int, world_rows(old(s).world)[id as int].with_position(None)),
{
    let entity = s.world.entities().entity(id);
    let _ = s.world.write_storage::<Position>().remove(entity);
}

/// `WriteStorage::remove` on the renderable storage.
#[verifier::external_body]
fn world_remove_renderable(s: &mut EntityStore, id: u32)
    requires
        id < world_rows(old(s).world).len(),
    ensures
        world_rows(final(s).world) == world_rows(old(s).world).update(id as int, world_rows(old(s).world)[id as int].with_renderable(None)),
{
    let entity = s.world.entities().entity(id);
    let _ = s.world.write_storage::<Renderable>().remove(entity);
}

/// `WriteStorage::remove` on the storage of player marks.
#[verifier::external_body]
fn world_remove_player(s: &mut EntityStore, id: u32)
    requires
        id < world_rows(old(s).world).len(),
    ensures
        world_rows(final(s).world) == world_rows(old(s).world).update(id as int, world_rows(old(s).world)[id as int].with_player(None)),
{
    let entity = s.world.entities().entity(id);
    let _ = s.world.write_storage::<Player>().remove(entity);
}

/// `Join::join` over the entities, the player marks and the positions: the
/// join walks the ids that are in all three, from the lowest up.
#[verifier::external_body]
fn world_controlled(s: &EntityStore) -> (out: Vec<(u32, Position)>)
    ensures
        is_controlled_join(world_rows(s.world), out@),
{
    let entities = s.world.entities();
    let players = s.world.read_storage::<Player>();
    let positions = s.world.read_storage::<Position>();
    (&entities, &players, &positions).join().map(|(e, _, p)| (e.id(), *p)).collect()
}

/// `Join::join` over the entities, the positions and the renderables: the
/// join walks the ids that are in all three, from the lowest up.
#[verifier::external_body]
fn world_drawables(s: &EntityStore) -> (out: Vec<(u32, Position, Renderable)>)
    ensures
        is_drawable_join(world_rows(s.world), out@),
{
    let entities = s.world.entities();
    let positions = s.world.read_storage::<Position>();
    let renderables = s.world.read_storage::<Renderable>();
    (&entities, &positions, &renderables).join().map(|(e, p, r)| (e.id(), *p, *r)).collect()
}

impl EntityStore {
    /// A store without entities.
    pub fn new() -> (s: EntityStore)
        ensures
            s@ == Seq::<Components>::empty(),
    {
        world_new()
    }

    /// Creates an entity with the given components and returns its id, which
    /// is the number of entities created before it.
    pub fn spawn(&mut self, c: Components) -> (id: u32)
        requires
            old(self)@.len() < MAX_ENTITIES,
        ensures
            id == old(self)@.len(),
            final(self)@ == old(self)@.push(c),
    {
        world_spawn(self, c)
    }

    /// Gives the entity a position, in place of the one it had, if any.
    pub fn set_position(&mut self, id: u32, p: Position)
        requires
            id < old(self)@.len(),
        ensures
            final(self)@ == old(self)@.update(id as int, old(self)@[id as int].with_position(Some(p))),
    {
        world_set_position(self, id, p)
    }

    /// Gives the entity a renderable, in place of the one it had, if any.
    pub fn set_renderable(&mut self, id: u32, r: Renderable)
        requires
            id < old(self)@.len(),
        ensures
            final(self)@ == old(self)@.update(id as int, old(self)@[id as int].with_renderable(Some(r))),
    {
        world_set_renderable(self, id, r)
    }

    /// Marks the entity as a player.
    pub fn set_player(&mut self, id: u32)
        requires
            id < old(self)@.len(),
        ensures
            final(self)@ == old(self)@.update(id as int, old(self)@[id as int].with_player(Some(Player))),
    {
        world_set_player(self, id)
    }

    /// Takes the entity's position away.
    pub fn remove_position(&mut self, id: u32)
        requires
            id < old(self)@.len(),
        ensures
            final(self)@ == old(self)@.update(id as int, old(self)@[id as int].with_position(None)),
    {
        world_remove_position(self, id)
    }

    /// Takes the entity's renderable away.
    pub fn remove_renderable(&mut self, id: u32)
        requires
            id < old(self)@.len(),
        ensures
            final(self)@ == old(self)@.update(id as int, old(self)@[id as int].with_renderable(None)),
    {
        world_remove_renderable(self, id)
    }

    /// Takes the player's mark from the entity.
    pub fn remove_player(&mut self, id: u32)
        requires
            id < old(self)@.len(),
        ensures
            final(self)@ == old(self)@.update(id as int, old(self)@[id as int].with_player(None)),
    {
        world_remove_player(self, id)
    }

    /// The entities that carry the player's mark and a position, by rising
    /// id, each with its position.
    pub fn players_with_position(&self) -> (out: Vec<(u32, Position)>)
        ensures
            is_controlled_join(self@, out@),
    {
        world_controlled(self)
    }

    /// The entities that have a position and a renderable, by rising id,
    /// each with both.
    pub fn drawables(&self) -> (out: Vec<(u32, Position, Renderable)>)
        ensures
            is_drawable_join(self@, out@),
    {
        world_drawables(self)
    }
}

/// Which entities a query returns does not depend on the order in which
/// their components were attached: attaching a position and then a
/// renderable leaves the same store as attaching them the other way round,
/// and the entity is then among the drawable ones.
pub proof fn lemma_attach_order(rows: Seq<Components>, id: int, p: Position, r: Renderable)
    requires
        0 <= id < rows.len(),
    ensures
        ({
            let first = rows.update(id, rows[id].with_position(Some(p)));
            first.update(id, first[id].with_renderable(Some(r)))
        }) == ({
            let first = rows.update(id, rows[id].with_renderable(Some(r)));
            first.update(id, first[id].with_position(Some(p)))
        }),
        ({
            let first = rows.update(id, rows[id].with_position(Some(p)));
            first.update(id, first[id].with_renderable(Some(r)))
        })[id].drawable(),
{
    let a1 = rows.update(id, rows[id].with_position(Some(p)));
    let a2 = a1.update(id, a1[id].with_renderable(Some(r)));
    let b1 = rows.update(id, rows[id].with_renderable(Some(r)));
    let b2 = b1.update(id, b1[id].with_position(Some(p)));
    assert(a2 =~= b2);
}

/// A query returns each entity at most once, and an entity is among the
/// results exactly if it has both components.
pub proof fn lemma_drawable_join_exact(rows: Seq<Components>, out: Seq<(u32, Position, Renderable)>, i: int)
    requires
        is_drawable_join(rows, out),
        0 <= i < rows.len(),
    ensures
        rows[i].drawable() <==> exists|k: int| 0 <= k < out.len() && (#[trigger] out[k]).0 == i,
        forall|j: int, k: int|
            0 <= j < out.len() && 0 <= k < out.len() && (#[trigger] out[j]).0 == (#[trigger] out[k]).0 ==> j == k,
{
    assert forall|j: int, k: int|
        0 <= j < out.len() && 0 <= k < out.len() && (#[trigger] out[j]).0 == (#[trigger] out[k]).0 implies j
        == k by {
        if j < k {
            assert(out[j].0 < out[k].0);
        } else if k < j {
            assert(out[k].0 < out[j].0);
        }
    }
}

proof fn lemma_found_ids_count(found: Seq<(u32, Position, Renderable)>, n: int)
    requires
        0 <= n <= found.len(),
        forall|j: int, k: int| 0 <= j < k < found.len() ==> (#[trigger] found[j]).0 < (#[trigger] found[k]).0,
    ensures
        found_ids(found, n).finite(),
        found_ids(found, n).len() == n,
    decreases n,
{
    if n == 0 {
        assert(found_ids(found, 0) =~= Set::<int>::empty());
    } else {
        lemma_found_ids_count(found, n - 1);
        let earlier = found_ids(found, n - 1);
        let id = found[n - 1].0 as int;
        if earlier.contains(id) {
            let k = choose|k: int| 0 <= k < n - 1 && (#[trigger] found[k]).0 == id;
            assert(found[k].0 < found[n - 1].0);
        }
        assert forall|i: int| found_ids(found, n).contains(i) <==> earlier.insert(id).contains(i) by {
            if found_ids(found, n).contains(i) {
                let k = choose|k: int| 0 <= k < n && (#[trigger] found[k]).0 == i;
                if k < n - 1 {
                    assert(earlier.contains(i));
                }
            }
            if earlier.contains(i) {
                let k = choose|k: int| 0 <= k < n - 1 && (#[trigger] found[k]).0 == i;
                assert(found_ids(found, n).contains(i));
            }
            if i == id {
                assert(found[n - 1].0 == i);
            }
        }
        assert(found_ids(found, n) =~= earlier.insert(id));
    }
}

/// A query has as many results as there are entities with both components.
pub proof fn lemma_drawable_count(rows: Seq<Components>, found: Seq<(u32, Position, Renderable)>)
    requires
        is_drawable_join(rows, found),
    ensures
        drawable_ids(rows).finite(),
        drawable_ids(rows).len() == found.len(),
{
    lemma_found_ids_count(found, found.len() as int);
    assert forall|i: int| found_ids(found, found.len() as int).contains(i) <==> drawable_ids(rows).contains(
        i,
    ) by {
        if found_ids(found, found.len() as int).contains(i) {
            let k = choose|k: int| 0 <= k < found.len() && (#[trigger] found[k]).0 == i;
            assert(rows[found[k].0 as int].drawable());
        }
        if drawable_ids(rows).contains(i) {
            assert(rows[i].drawable());
        }
    }
    assert(found_ids(found, found.len() as int) =~= drawable_ids(rows));
}

} // verus!
