use roguelike_core::components::{Colour, Components, Player, Position, Renderable};
use roguelike_core::game::State;
use roguelike_core::map::{new_map_test, TileMap, TileType};
use roguelike_core::player::{key_delta, player_input, resolve_move, try_move_player, Key};
use roguelike_core::render::{draw_map, draw_map_with, render, style_tile, DrawCall};
use roguelike_core::store::EntityStore;

fn at(x: i32, y: i32) -> Position {
    Position { x, y }
}

fn glyph(code: u16) -> Renderable {
    Renderable {
        glyph: code,
        foreground: Colour { r: 1, g: 2, b: 3 },
        background: Colour { r: 4, g: 5, b: 6 },
    }
}

fn player_x(state: &State) -> i32 {
    state.ecs.players_with_position()[0].1.x
}

#[test]
fn arrows_map_to_unit_steps() {
    assert_eq!(key_delta(Some(Key::Left)), Some((-1, 0)));
    assert_eq!(key_delta(Some(Key::Right)), Some((1, 0)));
    assert_eq!(key_delta(Some(Key::Up)), Some((0, -1)));
    assert_eq!(key_delta(Some(Key::Down)), Some((0, 1)));
    assert_eq!(key_delta(Some(Key::Other)), None);
    assert_eq!(key_delta(None), None);
}

#[test]
fn move_is_taken_on_floor_and_refused_on_wall() {
    let map = TileMap::generate_from(6, 6, &vec![(3, 2)], 1, 1);
    assert_eq!(resolve_move(&map, at(2, 2), 0, 1), at(2, 3));
    assert_eq!(resolve_move(&map, at(2, 2), -1, 0), at(1, 2));
    assert_eq!(resolve_move(&map, at(2, 2), 1, 0), at(2, 2));
    assert_eq!(resolve_move(&map, at(1, 1), -1, 0), at(1, 1));
    assert_eq!(resolve_move(&map, at(1, 1), 0, -1), at(1, 1));
    assert_eq!(resolve_move(&map, at(2, 2), 2, 2), at(4, 4));
}

#[test]
fn destination_is_clamped_to_the_map() {
    let map = TileMap::generate_from(6, 6, &vec![], 1, 1);
    assert_eq!(resolve_move(&map, at(4, 4), 100, 0), at(4, 4));
    assert_eq!(resolve_move(&map, at(4, 4), i32::MAX, i32::MAX), at(4, 4));
    assert_eq!(resolve_move(&map, at(i32::MIN, 3), -1, 0), at(i32::MIN, 3));
    assert_eq!(resolve_move(&map, at(-7, 2), 8, 0), at(1, 2));
    assert_eq!(resolve_move(&map, at(3, 90), 0, -88), at(3, 2));
}

#[test]
fn diagonal_step_asks_only_the_destination_cell() {
    let cornered = TileMap::generate_from(5, 5, &vec![(2, 1), (1, 2)], 1, 1);
    assert_eq!(cornered.tile_at(2, 1), TileType::Wall);
    assert_eq!(cornered.tile_at(1, 2), TileType::Wall);
    assert_eq!(cornered.tile_at(2, 2), TileType::Floor);
    assert_eq!(resolve_move(&cornered, at(1, 1), 1, 1), at(2, 2));
    let walled = TileMap::generate_from(5, 5, &vec![(2, 2)], 1, 1);
    assert_eq!(walled.tile_at(2, 1), TileType::Floor);
    assert_eq!(walled.tile_at(1, 2), TileType::Floor);
    assert_eq!(resolve_move(&walled, at(1, 1), 1, 1), at(1, 1));
}

#[test]
fn left_presses_stop_before_the_first_wall() {
    let mut open = State::with_map(TileMap::generate_from(80, 50, &vec![], 40, 25));
    open.spawn_player(40, 25, 64);
    for _ in 0..41 {
        open.tick(Some(Key::Left));
    }
    assert_eq!(player_x(&open), 1);

    let mut walled = State::with_map(TileMap::generate_from(80, 50, &vec![(30, 25), (12, 25)], 40, 25));
    walled.spawn_player(40, 25, 64);
    for _ in 0..41 {
        walled.tick(Some(Key::Left));
    }
    assert_eq!(player_x(&walled), 31);
    walled.tick(Some(Key::Left));
    assert_eq!(player_x(&walled), 31);
    assert_eq!(walled.ecs.players_with_position()[0].1.y, 25);
}

#[test]
fn left_presses_on_a_rolled_map() {
    let mut state = State::new();
    state.spawn_player(40, 25, 64);
    let mut expected = 40;
    while !state.map.is_blocking(expected - 1, 25) {
        expected -= 1;
    }
    for _ in 0..41 {
        state.tick(Some(Key::Left));
    }
    assert_eq!(player_x(&state), expected);
    state.tick(Some(Key::Left));
    assert_eq!(player_x(&state), expected);
}

#[test]
fn other_keys_and_no_key_move_nothing() {
    let mut state = State::with_map(TileMap::generate_from(10, 10, &vec![], 5, 5));
    state.spawn_player(5, 5, 64);
    player_input(&mut state, None);
    assert_eq!(state.ecs.players_with_position(), vec![(0, at(5, 5))]);
    player_input(&mut state, Some(Key::Other));
    assert_eq!(state.ecs.players_with_position(), vec![(0, at(5, 5))]);
    player_input(&mut state, Some(Key::Down));
    assert_eq!(state.ecs.players_with_position(), vec![(0, at(5, 6))]);
    player_input(&mut state, Some(Key::Right));
    assert_eq!(state.ecs.players_with_position(), vec![(0, at(6, 6))]);
    player_input(&mut state, Some(Key::Up));
    assert_eq!(state.ecs.players_with_position(), vec![(0, at(6, 5))]);
}

#[test]
fn spawn_hands_out_ids_in_order() {
    let mut ecs = EntityStore::new();
    assert_eq!(ecs.spawn(Components::none()), 0);
    assert_eq!(ecs.spawn(Components::none()), 1);
    assert_eq!(ecs.spawn(Components { position: Some(at(1, 1)), renderable: None, player: None }), 2);
    assert!(ecs.drawables().is_empty());
    assert!(ecs.players_with_position().is_empty());
}

#[test]
fn every_player_moves_and_no_one_else() {
    let map = TileMap::generate_from(8, 8, &vec![(3, 3)], 1, 1);
    let mut ecs = EntityStore::new();
    ecs.spawn(Components { position: Some(at(2, 2)), renderable: None, player: Some(Player) });
    ecs.spawn(Components { position: Some(at(4, 4)), renderable: Some(glyph(7)), player: None });
    ecs.spawn(Components { position: None, renderable: None, player: Some(Player) });
    ecs.spawn(Components { position: Some(at(2, 3)), renderable: Some(glyph(8)), player: Some(Player) });
    ecs.spawn(Components { position: Some(at(5, 6)), renderable: None, player: Some(Player) });
    try_move_player(1, 0, &mut ecs, &map);
    assert_eq!(ecs.players_with_position(), vec![(0, at(3, 2)), (3, at(2, 3)), (4, at(6, 6))]);
    assert_eq!(ecs.drawables(), vec![(1, at(4, 4), glyph(7)), (3, at(2, 3), glyph(8))]);
    try_move_player(1, 0, &mut ecs, &map);
    assert_eq!(ecs.players_with_position(), vec![(0, at(4, 2)), (3, at(2, 3)), (4, at(6, 6))]);
}

#[test]
fn query_returns_exactly_the_entities_with_both_components() {
    let mut ecs = EntityStore::new();
    let a = ecs.spawn(Components::none());
    let b = ecs.spawn(Components::none());
    let c = ecs.spawn(Components::none());
    let d = ecs.spawn(Components::none());
    ecs.set_position(a, at(1, 2));
    ecs.set_renderable(a, glyph(10));
    ecs.set_renderable(b, glyph(11));
    ecs.set_position(b, at(3, 4));
    ecs.set_position(c, at(5, 6));
    ecs.set_renderable(d, glyph(12));
    assert_eq!(ecs.drawables(), vec![(a, at(1, 2), glyph(10)), (b, at(3, 4), glyph(11))]);
    assert!(ecs.players_with_position().is_empty());
    ecs.set_player(d);
    assert!(ecs.players_with_position().is_empty());
    ecs.set_player(c);
    assert_eq!(ecs.players_with_position(), vec![(c, at(5, 6))]);
    ecs.set_position(a, at(9, 9));
    assert_eq!(ecs.drawables(), vec![(a, at(9, 9), glyph(10)), (b, at(3, 4), glyph(11))]);
}

#[test]
fn detached_components_leave_the_queries() {
    let mut ecs = EntityStore::new();
    let a = ecs.spawn(Components { position: Some(at(1, 1)), renderable: Some(glyph(1)), player: Some(Player) });
    let b = ecs.spawn(Components { position: Some(at(2, 2)), renderable: Some(glyph(2)), player: Some(Player) });
    ecs.remove_renderable(a);
    assert_eq!(ecs.drawables(), vec![(b, at(2, 2), glyph(2))]);
    ecs.remove_player(b);
    assert_eq!(ecs.players_with_position(), vec![(a, at(1, 1))]);
    ecs.remove_position(a);
    assert!(ecs.players_with_position().is_empty());
    ecs.remove_position(a);
    ecs.remove_position(b);
    assert!(ecs.drawables().is_empty());
}

#[test]
fn tiles_are_drawn_by_kind() {
    let black = Colour { r: 0, g: 0, b: 0 };
    assert_eq!(
        style_tile(TileType::Floor, 3, 4, 46, 35),
        DrawCall { x: 3, y: 4, foreground: Colour { r: 128, g: 128, b: 128 }, background: black, glyph: 46 }
    );
    assert_eq!(
        style_tile(TileType::Wall, 5, 6, 46, 35),
        DrawCall { x: 5, y: 6, foreground: Colour { r: 0, g: 255, b: 0 }, background: black, glyph: 35 }
    );
}

#[test]
fn map_is_drawn_cell_by_cell() {
    let map = TileMap::generate_from(4, 3, &vec![], 1, 1);
    let calls = draw_map_with(&map, 1, 2);
    assert_eq!(calls.len(), 12);
    for y in 0..3 {
        for x in 0..4 {
            let call = calls[(y * 4 + x) as usize];
            assert_eq!(call, style_tile(map.tile_at(x, y), x, y, 1, 2));
        }
    }
    let drawn = draw_map(&map);
    assert_eq!(drawn.len(), 12);
    assert_eq!(drawn[0].glyph, 35);
    assert_eq!(drawn[5].glyph, 46);
    assert_eq!((drawn[5].x, drawn[5].y), (1, 1));
}

#[test]
fn frame_has_one_call_per_cell_and_per_drawable_entity() {
    let mut state = State::with_map(new_map_test());
    assert_eq!(render(&state.map, &state.ecs).len(), 4000);
    state.spawn_player(40, 25, 64);
    state.ecs.spawn(Components { position: Some(at(3, 3)), renderable: None, player: None });
    state.ecs.spawn(Components { position: None, renderable: Some(glyph(9)), player: None });
    state.ecs.spawn(Components { position: Some(at(40, 25)), renderable: Some(glyph(9)), player: None });
    let calls = state.tick(None);
    assert_eq!(calls.len(), 4000 + 2);
    assert_eq!(&calls[..4000], &draw_map(&state.map)[..]);
    let yellow = Colour { r: 255, g: 255, b: 0 };
    let black = Colour { r: 0, g: 0, b: 0 };
    assert_eq!(calls[4000], DrawCall { x: 40, y: 25, foreground: yellow, background: black, glyph: 64 });
    assert_eq!(
        calls[4001],
        DrawCall { x: 40, y: 25, foreground: glyph(9).foreground, background: glyph(9).background, glyph: 9 }
    );
}

#[test]
fn new_state_has_a_map_and_no_entities() {
    let state = State::new();
    assert_eq!(state.map.width(), 80);
    assert_eq!(state.map.height(), 50);
    assert!(!state.map.is_blocking(40, 25));
    assert!(state.ecs.drawables().is_empty());
}

#[test]
fn setup_places_one_player_on_the_free_cell() {
    let state = State::setup();
    assert_eq!(state.ecs.players_with_position(), vec![(0, at(40, 25))]);
    let yellow = Colour { r: 255, g: 255, b: 0 };
    let black = Colour { r: 0, g: 0, b: 0 };
    assert_eq!(
        state.ecs.drawables(),
        vec![(0, at(40, 25), Renderable { glyph: 64, foreground: yellow, background: black })]
    );
    assert_eq!(state.map.tile_at(40, 25), TileType::Floor);
}

#[test]
fn players_sharing_a_key_move_together() {
    let mut state = State::with_map(TileMap::generate_from(9, 9, &vec![(5, 5)], 1, 1));
    state.spawn_player(2, 2, 64);
    state.spawn_player(4, 5, 64);
    state.spawn_player(7, 7, 64);
    state.tick(Some(Key::Right));
    assert_eq!(state.ecs.players_with_position(), vec![(0, at(3, 2)), (1, at(4, 5)), (2, at(7, 7))]);
    state.tick(Some(Key::Up));
    assert_eq!(state.ecs.players_with_position(), vec![(0, at(3, 1)), (1, at(4, 4)), (2, at(7, 6))]);
}
