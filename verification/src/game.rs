use crate::components::{Colour, Components, Player, Position, Renderable};
use crate::map::{generated_from_rolls, new_map_test, on_border, TileMap, TileType};
use crate::player::{key_step, moved_row, player_input, Key};
use crate::render::{cp437, cp437_code, is_frame, render, DrawCall};
use crate::store::{drawable_ids, EntityStore, MAX_ENTITIES};
use vstd::prelude::*;

verus! {

/// All that a game session holds: the entities and the map.
pub struct State {
    pub ecs: EntityStore,
    pub map: TileMap,
}

impl State {
    /// A session on a freshly generated map, without entities.
    pub fn new() -> (s: State)
        ensures
            s.ecs@ == Seq::<Components>::empty(),
            s.map.wf(),
            s.map.spec_width() == 80,
            s.map.spec_height() == 50,
            generated_from_rolls(s.map, 400, (40, 25)),
            forall|x: int, y: int|
                s.map.contains(x, y) && on_border(80, 50, x, y) ==> #[trigger] s.map.tile(x, y)
                    == TileType::Wall,
            s.map.tile(40, 25) == TileType::Floor,
    {
        State { ecs: EntityStore::new(), map: new_map_test() }
    }

    /// A session ready for its first frame: a freshly generated map and one
    /// player, drawn as an at sign, on the cell kept free for it.
    pub fn setup() -> (s: State)
        ensures
            s.ecs@ == seq![player_at(40, 25, cp437_code('@'))],
            s.map.wf(),
            s.map.spec_width() == 80,
            s.map.spec_height() == 50,
            generated_from_rolls(s.map, 400, (40, 25)),
            forall|x: int, y: int|
                s.map.contains(x, y) && on_border(80, 50, x, y) ==> #[trigger] s.map.tile(x, y)
                    == TileType::Wall,
            s.map.tile(40, 25) == TileType::Floor,
    {
        let mut s = State::new();
        let glyph = cp437('@');
        s.spawn_player(40, 25, glyph);
        proof {
            assert(s.ecs@ =~= seq![player_at(40, 25, cp437_code('@'))]);
        }
        s
    }

    /// A session on the map given, without entities.
    pub fn with_map(map: TileMap) -> (s: State)
        ensures
            s.ecs@ == Seq::<Components>::empty(),
            s.map == map,
    {
        State { ecs: EntityStore::new(), map }
    }

    /// Creates a player at `(x, y)`, drawn with the glyph given in yellow on
    /// black, and returns its id.
    pub fn spawn_player(&mut self, x: i32, y: i32, glyph: u16) -> (id: u32)
        requires
            old(self).ecs@.len() < MAX_ENTITIES,
        ensures
            final(self).map == old(self).map,
            id == old(self).ecs@.len(),
            final(self).ecs@ == old(self).ecs@.push(player_at(x, y, glyph)),
    {
        let c = Components {
            position: Some(Position { x, y }),
            renderable: Some(
                Renderable {
                    glyph,
                    foreground: Colour { r: 255, g: 255, b: 0 },
                    background: Colour { r: 0, g: 0, b: 0 },
                },
            ),
            player: Some(Player),
        };
        self.ecs.spawn(c)
    }

    /// One frame: the key is applied to the players, then the frame is
    /// drawn, the map first and the entities over it.
    pub fn tick(&mut self, key: Option<Key>) -> (out: Vec<DrawCall>)
        requires
            old(self).map.wf(),
        ensures
            final(self).map == old(self).map,
            final(self).ecs@.len() == old(self).ecs@.len(),
            key_step(key) is None ==> final(self).ecs@ == old(self).ecs@,
            key_step(key) is Some ==> forall|i: int|
                0 <= i < old(self).ecs@.len() ==> #[trigger] final(self).ecs@[i] == moved_row(
                    old(self).map,
                    old(self).ecs@[i],
                    key_step(key).unwrap().0 as int,
                    key_step(key).unwrap().1 as int,
                ),
            exists|found: Seq<(u32, Position, Renderable)>| #[trigger]
                is_frame(final(self).map, final(self).ecs@, found, out@, cp437_code('.'), cp437_code('#')),
            out@.len() == old(self).map.spec_width() * old(self).map.spec_height() + drawable_ids(
                final(self).ecs@,
            ).len(),
    {
        player_input(self, key);
        render(&self.map, &self.ecs)
    }
}

/// The components of a player at `(x, y)`: a position, the glyph in yellow on
/// black, and the player's mark.
pub open spec fn player_at(x: i32, y: i32, glyph: u16) -> Components {
    Components {
        position: Some(Position { x, y }),
        renderable: Some(
            Renderable {
                glyph,
                foreground: Colour { r: 255, g: 255, b: 0 },
                background: Colour { r: 0, g: 0, b: 0 },
            },
        ),
        player: Some(Player),
    }
}

} // verus!
