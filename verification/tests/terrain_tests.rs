use carbonthrone::terrain::{CoverLevel, Direction, DirectionalCover, LevelMap, Tile};
use carbonthrone::zone::ZoneKind;

#[test]
fn tiles_default_to_open_and_read_back() {
    let mut m = LevelMap::new(5, 5, ZoneKind::Hallway);
    assert_eq!(m.get(1, 1), Tile::Open);
    m.set(1, 1, Tile::Obstacle);
    m.set(2, 2, Tile::Door);
    assert_eq!(m.get(1, 1), Tile::Obstacle);
    assert_eq!(m.get(2, 2), Tile::Door);
    assert_eq!(m.get(3, 3), Tile::Open);
    assert!(!m.is_passable(1, 1));
    assert!(m.is_passable(2, 2));
    m.set(1, 1, Tile::Open);
    assert!(m.is_passable(1, 1));
}

#[test]
fn tile_passability() {
    assert!(Tile::Open.is_passable());
    assert!(Tile::Door.is_passable());
    assert!(!Tile::Obstacle.is_passable());
}

#[test]
fn from_attack_uses_dominant_axis() {
    assert_eq!(Direction::from_attack((5, 5), (2, 4)), Direction::East);
    assert_eq!(Direction::from_attack((0, 4), (2, 4)), Direction::West);
    assert_eq!(Direction::from_attack((2, 0), (2, 4)), Direction::North);
    assert_eq!(Direction::from_attack((2, 9), (2, 4)), Direction::South);
    // Ties go to the horizontal axis; no offset reads as East.
    assert_eq!(Direction::from_attack((3, 3), (2, 2)), Direction::East);
    assert_eq!(Direction::from_attack((2, 2), (2, 2)), Direction::East);
}

#[test]
fn cover_comes_from_adjacent_obstacles() {
    let mut m = LevelMap::new(5, 5, ZoneKind::Hallway);
    m.set(2, 1, Tile::Obstacle);
    m.recompute_cover();
    assert_eq!(m.get_cover(2, 2, Direction::North), CoverLevel::Full);
    assert_eq!(m.get_cover(2, 2, Direction::South), CoverLevel::NoCover);
    assert_eq!(m.get_cover(1, 2, Direction::North), CoverLevel::Partial);
    assert_eq!(m.get_cover(3, 1, Direction::West), CoverLevel::Full);
    assert_eq!(m.get_cover(4, 4, Direction::East), CoverLevel::NoCover);
    assert_eq!(m.display_glyph(2, 1), '#');
    assert_eq!(m.display_glyph(2, 2), 'C');
    assert_eq!(m.display_glyph(1, 2), 'c');
    assert_eq!(m.display_glyph(0, 4), '.');
}

#[test]
fn door_glyph() {
    let mut m = LevelMap::new(3, 3, ZoneKind::DockingBay);
    m.set(0, 1, Tile::Door);
    assert_eq!(m.display_glyph(0, 1), '+');
}

#[test]
fn directional_cover_reads_each_side() {
    let dc = DirectionalCover([CoverLevel::Full, CoverLevel::NoCover, CoverLevel::Partial, CoverLevel::NoCover]);
    assert_eq!(dc.get(Direction::North), CoverLevel::Full);
    assert_eq!(dc.get(Direction::East), CoverLevel::Partial);
    assert_eq!(dc.get(Direction::West), CoverLevel::NoCover);
}

#[test]
fn bfs_path_goes_around_obstacles() {
    let mut m = LevelMap::new(3, 3, ZoneKind::Hallway);
    m.set(1, 0, Tile::Obstacle);
    m.set(1, 1, Tile::Obstacle);
    let path = m.bfs_path((0, 0), (2, 0), &vec![]);
    assert_eq!(path, vec![(0, 1), (0, 2), (1, 2), (2, 2), (2, 1), (2, 0)]);
}

#[test]
fn bfs_path_edge_cases() {
    let mut m = LevelMap::new(3, 3, ZoneKind::Hallway);
    assert!(m.bfs_path((1, 1), (1, 1), &vec![]).is_empty());
    // The destination may be occupied; other occupied cells are avoided.
    assert_eq!(m.bfs_path((0, 0), (1, 0), &vec![(1, 0)]), vec![(1, 0)]);
    let p = m.bfs_path((0, 0), (2, 0), &vec![(1, 0)]);
    assert_eq!(p.len(), 4);
    assert!(!p.contains(&(1, 0)));
    // Walled off: no path.
    m.set(1, 0, Tile::Obstacle);
    m.set(1, 1, Tile::Obstacle);
    m.set(1, 2, Tile::Obstacle);
    assert!(m.bfs_path((0, 0), (2, 2), &vec![]).is_empty());
}

#[test]
fn nearest_open_tile_searches_outward() {
    let mut m = LevelMap::new(4, 4, ZoneKind::Hallway);
    assert_eq!(m.nearest_open_tile(10, -5), (3, 0));
    assert_eq!(m.nearest_open_tile(1, 2), (1, 2));
    for y in 0..4 {
        for x in 0..4 {
            if (x, y) != (3, 3) {
                m.set(x, y, Tile::Obstacle);
            }
        }
    }
    assert_eq!(m.nearest_open_tile(0, 0), (3, 3));
    m.set(3, 3, Tile::Obstacle);
    assert_eq!(m.nearest_open_tile(2, 2), (0, 0));
}

#[test]
fn export_and_restore_tiles() {
    let mut m = LevelMap::new(6, 4, ZoneKind::SystemsCore);
    m.set(1, 1, Tile::Obstacle);
    m.set(5, 0, Tile::Door);
    m.set(2, 3, Tile::Obstacle);
    let exported = m.non_default_tiles();
    assert_eq!(exported.len(), 3);
    let restored = LevelMap::from_tile_map(6, 4, ZoneKind::SystemsCore, exported);
    for y in 0..4 {
        for x in 0..6 {
            assert_eq!(restored.get(x, y), m.get(x, y));
        }
    }
    assert_eq!(restored.get_cover(1, 2, Direction::North), CoverLevel::Full);
}

#[test]
fn exported_tiles_leave_out_open_ones() {
    let mut m = LevelMap::new(4, 4, ZoneKind::Hallway);
    m.set(1, 1, Tile::Obstacle);
    m.set(2, 2, Tile::Door);
    m.set(1, 1, Tile::Open);
    m.set(3, 3, Tile::Open);
    assert_eq!(m.non_default_tiles(), vec![((2, 2), Tile::Door)]);
}

#[test]
fn later_writes_win() {
    let mut m = LevelMap::new(4, 4, ZoneKind::Hallway);
    m.set(0, 0, Tile::Door);
    m.set(1, 0, Tile::Obstacle);
    m.set(0, 0, Tile::Obstacle);
    assert_eq!(m.get(0, 0), Tile::Obstacle);
    assert_eq!(m.get(1, 0), Tile::Obstacle);
    assert_eq!(m.get(2, 0), Tile::Open);
    assert_eq!(m.get(-7, 99), Tile::Open);
}

#[test]
fn from_tile_map_later_entry_wins() {
    let m = LevelMap::from_tile_map(
        3,
        3,
        ZoneKind::Hallway,
        vec![((0, 0), Tile::Obstacle), ((0, 0), Tile::Door)],
    );
    assert_eq!(m.get(0, 0), Tile::Door);
}
