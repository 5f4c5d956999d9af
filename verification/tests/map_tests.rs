use roguelike_core::map::{new_map_test, xy_idx, TileMap, TileType};

#[test]
fn xy_idx_is_row_major() {
    assert_eq!(xy_idx(0, 0), 0);
    assert_eq!(xy_idx(1, 0), 1);
    assert_eq!(xy_idx(0, 1), 80);
    assert_eq!(xy_idx(40, 25), 2040);
    assert_eq!(xy_idx(79, 49), 3999);
}

#[test]
fn index_is_injective_on_a_small_map() {
    let map = TileMap::generate_from(5, 4, &vec![], 2, 2);
    let mut seen = vec![false; 20];
    for y in 0..4 {
        for x in 0..5 {
            let idx = map.index(x, y);
            assert_eq!(idx, (y * 5 + x) as usize);
            assert!(!seen[idx]);
            seen[idx] = true;
        }
    }
    assert!(seen.iter().all(|s| *s));
}

#[test]
fn bordered_map_has_a_ring_of_walls_and_a_floor_inside() {
    let map = TileMap::bordered(4, 3);
    assert_eq!(map.width(), 4);
    assert_eq!(map.height(), 3);
    for y in 0..3 {
        for x in 0..4 {
            let inside = x == 1 && y == 1 || x == 2 && y == 1;
            let expected = if inside { TileType::Floor } else { TileType::Wall };
            assert_eq!(map.tile_at(x, y), expected);
            assert_eq!(map.is_blocking(x, y), !inside);
        }
    }
}

#[test]
fn generate_from_places_the_picks_and_spares_the_reserved_cell() {
    let picks = vec![(1, 1), (3, 2), (2, 2), (3, 2), (4, 4), (0, 2)];
    let map = TileMap::generate_from(5, 5, &picks, 2, 2);
    let walls_inside = [(1, 1), (3, 2)];
    for y in 0..5 {
        for x in 0..5 {
            let ring = x == 0 || y == 0 || x == 4 || y == 4;
            let wall = ring || walls_inside.contains(&(x, y));
            assert_eq!(map.is_blocking(x, y), wall);
        }
    }
    assert_eq!(map.tile_at(2, 2), TileType::Floor);
}

#[test]
fn place_wall_changes_one_cell() {
    let mut map = TileMap::bordered(5, 5);
    map.place_wall(2, 3, 1, 1);
    assert_eq!(map.tile_at(2, 3), TileType::Wall);
    assert_eq!(map.tile_at(3, 2), TileType::Floor);
    map.place_wall(1, 1, 1, 1);
    assert_eq!(map.tile_at(1, 1), TileType::Floor);
}

#[test]
fn reserved_cell_on_the_ring_stays_a_wall() {
    let map = TileMap::generate_from(5, 5, &vec![(0, 0)], 0, 0);
    assert_eq!(map.tile_at(0, 0), TileType::Wall);
}

#[test]
fn generated_map_has_solid_ring_and_free_spawn() {
    for _ in 0..20 {
        let map = new_map_test();
        assert_eq!(map.width(), 80);
        assert_eq!(map.height(), 50);
        let mut walls_inside = 0;
        for y in 0..50 {
            for x in 0..80 {
                let ring = x == 0 || y == 0 || x == 79 || y == 49;
                if ring {
                    assert_eq!(map.tile_at(x, y), TileType::Wall);
                } else if map.is_blocking(x, y) {
                    walls_inside += 1;
                }
            }
        }
        assert!(walls_inside <= 400);
        assert!(walls_inside > 0);
        assert_eq!(map.tile_at(40, 25), TileType::Floor);
    }
}

#[test]
fn generate_ends_when_more_walls_are_asked_than_fit() {
    let map = TileMap::generate(4, 4, 10_000, 1, 1);
    assert_eq!(map.tile_at(1, 1), TileType::Floor);
    for y in 0..4 {
        for x in 0..4 {
            if (x, y) != (1, 1) {
                assert_eq!(map.tile_at(x, y), TileType::Wall);
            }
        }
    }
}

#[test]
fn generate_takes_maps_without_interior() {
    let one = TileMap::generate(1, 1, 50, 0, 0);
    assert_eq!(one.tile_at(0, 0), TileType::Wall);
    let two = TileMap::generate(2, 2, 50, 1, 1);
    for y in 0..2 {
        for x in 0..2 {
            assert_eq!(two.tile_at(x, y), TileType::Wall);
        }
    }
    let none = TileMap::generate(3, 3, 0, 1, 1);
    assert_eq!(none.tile_at(1, 1), TileType::Floor);
}
