use crate::components::{Components, Position};
use crate::game::State;
use crate::map::TileMap;
use crate::store::{is_controlled_join, EntityStore};
use vstd::prelude::*;

verus! {

/// A key as the game sees it: one of the four arrows, or any other key.
#[derive(Clone, Copy, Debug, PartialEq, Eq, Structural)]
pub enum Key {
    Left,
    Right,
    Up,
    Down,
    Other,
}

/// The step that a key asks for: one cell along one axis for an arrow,
/// nothing for another key or for no key.
pub open spec fn key_step(key: Option<Key>) -> Option<(i32, i32)> {
    match key {
        Some(Key::Left) => Some((-1i32, 0i32)),
        Some(Key::Right) => Some((1i32, 0i32)),
        Some(Key::Up) => Some((0i32, -1i32)),
        Some(Key::Down) => Some((0i32, 1i32)),
        Some(Key::Other) => None,
        None => None,
    }
}

/// `v` pulled into `0 ..= limit - 1`.
pub open spec fn clamped(v: int, limit: int) -> int {
    if v < 0 {
        0
    } else if v > limit - 1 {
        limit - 1
    } else {
        v
    }
}

/// The cell that a step of `(dx, dy)` from `p` aims at: each axis is clamped
/// to the map on its own.
pub open spec fn destination(map: TileMap, p: Position, dx: int, dy: int) -> (int, int) {
    (clamped(p.x + dx, map.spec_width()), clamped(p.y + dy, map.spec_height()))
}

/// Where an entity at `p` stands after a step of `(dx, dy)`: on the
/// destination if that cell is no wall, else where it was. Only the
/// destination cell is asked; the cells beside the path are not.
pub open spec fn moved(map: TileMap, p: Position, dx: int, dy: int) -> Position {
    let d = destination(map, p, dx, dy);
    if map.blocking(d.0, d.1) {
        p
    } else {
        Position { x: d.0 as i32, y: d.1 as i32 }
    }
}

/// What a step of `(dx, dy)` makes of an entity: one with the player's mark
/// and a position moves, any other stays as it is.
pub open spec fn moved_row(map: TileMap, c: Components, dx: int, dy: int) -> Components {
    if c.controlled() {
        c.with_position(Some(moved(map, c.position.unwrap(), dx, dy)))
    } else {
        c
    }
}

/// One of the first `k` results of a query is the entity `i`.
pub open spec fn among(found: Seq<(u32, Position)>, k: int, i: int) -> bool {
    exists|j: int| 0 <= j < k && (#[trigger] found[j]).0 == i
}

/// The step that a key asks for.
pub fn key_delta(key: Option<Key>) -> (d: Option<(i32, i32)>)
    ensures
        d == key_step(key),
{
    match key {
        Some(Key::Left) => Some((-1, 0)),
        Some(Key::Right) => Some((1, 0)),
        Some(Key::Up) => Some((0, -1)),
        Some(Key::Down) => Some((0, 1)),
        Some(Key::Other) => None,
        None => None,
    }
}

fn clamp_axis(v: i32, d: i32, limit: i32) -> (r: i32)
    requires
        limit >= 1,
    ensures
        r == clamped(v + d, limit as int),
{
    let t: i64 = v as i64 + d as i64;
    if t < 0 {
        0
    } else if t > limit as i64 - 1 {
        limit - 1
    } else {
        t as i32
    }
}

/// Resolves one step on the map: the destination is computed whole, tested
/// once, and taken or refused as one.
pub fn resolve_move(map: &TileMap, p: Position, delta_x: i32, delta_y: i32) -> (q: Position)
    requires
        map.wf(),
    ensures
        q == moved(*map, p, delta_x as int, delta_y as int),
{
    let x = clamp_axis(p.x, delta_x, map.width());
    let y = clamp_axis(p.y, delta_y, map.height());
    if map.is_blocking(x, y) {
        p
    } else {
        Position { x, y }
    }
}

/// Moves every entity that carries the player's mark and a position by one
/// step, each as `resolve_move` says; all other entities and components stay.
pub fn try_move_player(delta_x: i32, delta_y: i32, ecs: &mut EntityStore, map: &TileMap)
    requires
        map.wf(),
    ensures
        final(ecs)@.len() == old(ecs)@.len(),
        forall|i: int|
            0 <= i < old(ecs)@.len() ==> #[trigger] final(ecs)@[i] == moved_row(
                *map,
                old(ecs)@[i],
                delta_x as int,
                delta_y as int,
            ),
{
    let movers = ecs.players_with_position();
    let ghost start = ecs@;
    let mut k: usize = 0;
    while k < movers.len()
        invariant
            map.wf(),
            is_controlled_join(start, movers@),
            0 <= k <= movers@.len(),
            ecs@.len() == start.len(),
            forall|i: int|
                0 <= i < start.len() ==> #[trigger] ecs@[i] == (if among(movers@, k as int, i) {
                    moved_row(*map, start[i], delta_x as int, delta_y as int)
                } else {
                    start[i]
                }),
        decreases movers@.len() - k,
    {
        let (id, p) = movers[k];
        let q = resolve_move(map, p, delta_x, delta_y);
        let ghost before = ecs@;
        proof {
            assert(movers@[k as int].0 == id);
            assert(!among(movers@, k as int, id as int)) by {
                if among(movers@, k as int, id as int) {
                    let j = choose|j: int| 0 <= j < k && (#[trigger] movers@[j]).0 == id as int;
                    assert(movers@[j].0 < movers@[k as int].0);
                }
            }
            assert(before[id as int] == start[id as int]);
        }
        ecs.set_position(id, q);
        proof {
            assert forall|i: int| 0 <= i < start.len() implies #[trigger] ecs@[i] == (if among(
                movers@,
                k + 1,
                i,
            ) {
                moved_row(*map, start[i], delta_x as int, delta_y as int)
            } else {
                start[i]
            }) by {
                if i == id as int {
                    assert(among(movers@, k + 1, i));
                } else {
                    if among(movers@, k + 1, i) {
                        let j = choose|j: int| 0 <= j < k + 1 && (#[trigger] movers@[j]).0 == i;
                        assert(j < k);
                        assert(among(movers@, k as int, i));
                    }
                    if among(movers@, k as int, i) {
                        let j = choose|j: int| 0 <= j < k && (#[trigger] movers@[j]).0 == i;
                        assert(among(movers@, k + 1, i));
                    }
                    assert(ecs@[i] == before[i]);
                }
            }
        }
        k = k + 1;
    }
    proof {
        assert forall|i: int| 0 <= i < start.len() implies #[trigger] ecs@[i] == moved_row(
            *map,
            start[i],
            delta_x as int,
            delta_y as int,
        ) by {
            if start[i].controlled() {
                let j = choose|j: int| 0 <= j < movers@.len() && (#[trigger] movers@[j]).0 == i;
                assert(among(movers@, k as int, i));
            } else if among(movers@, k as int, i) {
                let j = choose|j: int| 0 <= j < k && (#[trigger] movers@[j]).0 == i;
                assert(start[movers@[j].0 as int].player.is_some());
            }
        }
    }
}

/// Applies the key of this frame: an arrow moves the players by one cell,
/// any other key, or none, changes nothing.
pub fn player_input(game_state: &mut State, key: Option<Key>)
    requires
        old(game_state).map.wf(),
    ensures
        final(game_state).map == old(game_state).map,
        final(game_state).ecs@.len() == old(game_state).ecs@.len(),
        key_step(key) is None ==> final(game_state).ecs@ == old(game_state).ecs@,
        key_step(key) is Some ==> forall|i: int|
            0 <= i < old(game_state).ecs@.len() ==> #[trigger] final(game_state).ecs@[i] == moved_row(
                old(game_state).map,
                old(game_state).ecs@[i],
                key_step(key).unwrap().0 as int,
                key_step(key).unwrap().1 as int,
            ),
{
    match key_delta(key) {
        Some((delta_x, delta_y)) => {
            try_move_player(delta_x, delta_y, &mut game_state.ecs, &game_state.map);
        },
        None => {},
    }
}

/// A step is taken if the destination cell is floor and refused if it is a
/// wall, whatever the cells beside the path hold.
pub proof fn lemma_move_gated_by_destination(map: TileMap, p: Position, dx: int, dy: int)
    requires
        map.wf(),
    ensures
        ({
            let d = destination(map, p, dx, dy);
            &&& map.contains(d.0, d.1)
            &&& map.blocking(d.0, d.1) ==> moved(map, p, dx, dy) == p
            &&& !map.blocking(d.0, d.1) ==> moved(map, p, dx, dy).x == d.0 && moved(map, p, dx, dy).y
                == d.1
        }),
{
}

/// A step that was refused is refused again: once an entity stands still
/// before a wall, the same step from there changes nothing.
pub proof fn lemma_blocked_stays_blocked(map: TileMap, p: Position, dx: int, dy: int)
    requires
        map.wf(),
        moved(map, p, dx, dy) == p,
    ensures
        moved(map, moved(map, p, dx, dy), dx, dy) == p,
{
}

} // verus!
