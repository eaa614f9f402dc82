use carbonthrone::game::try_move;
use carbonthrone::terrain::{LevelMap, Tile};
use carbonthrone::travel_system::{follow_companions, follow_step, place_companions_near, spawn_pos_near_door};
use carbonthrone::zone::{CardinalDir, ZoneKind};

fn open_map(cols: u32, rows: u32) -> LevelMap {
    LevelMap::new(cols, rows, ZoneKind::ResearchWing)
}

#[test]
fn companion_follows_player() {
    let map = open_map(12, 12);
    // The companion stands far away (> 3 tiles Chebyshev) at (0, 0).
    let mut companions = vec![(0, 0)];
    // The player is at (6, 6) and moves one step south.
    let (player_pos, _) = try_move(&map, &vec![], &vec![], false, (6, 6), 0, 1, 12, 12).expect("step is free");
    follow_companions(&map, player_pos, &mut companions);
    let comp_pos = companions[0];
    let dx = (player_pos.0 - comp_pos.0).abs();
    let dy = (player_pos.1 - comp_pos.1).abs();
    assert!(dx.max(dy) < 7, "companion should have moved closer; still at ({}, {})", comp_pos.0, comp_pos.1);
}

#[test]
fn follower_steps_diagonally_then_along_an_axis() {
    let mut map = open_map(10, 10);
    assert_eq!(follow_step(&map, (6, 6), (1, 1)), (2, 2));
    // Close enough: stays put.
    assert_eq!(follow_step(&map, (4, 4), (1, 1)), (1, 1));
    // Diagonal blocked: step along x.
    map.set(2, 2, Tile::Obstacle);
    assert_eq!(follow_step(&map, (6, 6), (1, 1)), (2, 1));
    // Diagonal and x blocked: step along y.
    map.set(2, 1, Tile::Obstacle);
    assert_eq!(follow_step(&map, (6, 6), (1, 1)), (1, 2));
}

#[test]
fn companions_placed_east_of_spawn_on_open_tiles() {
    let mut map = open_map(6, 4);
    map.set(3, 1, Tile::Obstacle);
    let spots = place_companions_near(&map, (1, 1), 3);
    assert_eq!(spots.len(), 3);
    assert_eq!(spots[0], (2, 1));
    // (3, 1) is blocked: the nearest open tile is one step away.
    let (x, y) = spots[1];
    assert_eq!((x - 3).abs() + (y - 1).abs(), 1);
    assert_eq!(spots[2], (4, 1));
}

#[test]
fn spawn_one_tile_inward_from_the_door() {
    let map = open_map(8, 6);
    let doors = vec![((7, 3), CardinalDir::East), ((3, 0), CardinalDir::North)];
    assert_eq!(spawn_pos_near_door(&map, &doors, CardinalDir::East), (6, 3));
    assert_eq!(spawn_pos_near_door(&map, &doors, CardinalDir::North), (3, 1));
    assert_eq!(spawn_pos_near_door(&map, &doors, CardinalDir::West), (1, 1));
}
