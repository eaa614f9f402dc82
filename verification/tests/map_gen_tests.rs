use carbonthrone::map_gen::{build_zone_map, zone_change, ChangeKind, RegionChange};
use carbonthrone::terrain::{CoverLevel, Direction, Tile};
use carbonthrone::zone::ZoneKind;

fn all_drawn(cols: u32, rows: u32) -> Vec<bool> {
    vec![true; (cols * rows) as usize]
}

#[test]
fn draws_place_obstacles_except_reserved_and_doors() {
    let mut drawn = vec![false; 16];
    drawn[1 * 4 + 2] = true; // (2, 1)
    drawn[0] = true; // (0, 0), reserved
    drawn[3 * 4 + 3] = true; // (3, 3), a door
    let m = build_zone_map(4, 4, ZoneKind::MedicalBay, &vec![(0, 0)], &vec![(3, 3)], &drawn, None);
    assert_eq!(m.get(2, 1), Tile::Obstacle);
    assert_eq!(m.get(0, 0), Tile::Open);
    assert_eq!(m.get(3, 3), Tile::Door);
    assert_eq!(m.get(1, 1), Tile::Open);
    assert_eq!((m.cols, m.rows, m.zone_kind), (4, 4, ZoneKind::MedicalBay));
}

#[test]
fn cleared_region_holds_no_obstacle() {
    let m = build_zone_map(
        5,
        5,
        ZoneKind::ExcavationSite,
        &vec![],
        &vec![(1, 4)],
        &all_drawn(5, 5),
        Some(RegionChange::Clear { x0: 0, y0: 3, x1: 2, y1: 5 }),
    );
    assert_eq!(m.get(0, 3), Tile::Open);
    assert_eq!(m.get(1, 3), Tile::Open);
    assert_eq!(m.get(1, 4), Tile::Door);
    assert_eq!(m.get(2, 3), Tile::Obstacle);
}

#[test]
fn blocked_region_spares_reserved_tiles() {
    let m = build_zone_map(
        5,
        5,
        ZoneKind::ExcavationSite,
        &vec![(0, 4)],
        &vec![],
        &vec![false; 25],
        Some(RegionChange::Block { x0: 0, y0: 3, x1: 2, y1: 5 }),
    );
    assert_eq!(m.get(1, 3), Tile::Obstacle);
    assert_eq!(m.get(0, 4), Tile::Open);
    assert_eq!(m.get(2, 4), Tile::Open);
}

#[test]
fn cover_is_computed_for_the_layout() {
    let mut drawn = vec![false; 9];
    drawn[1 * 3 + 1] = true; // (1, 1)
    let m = build_zone_map(3, 3, ZoneKind::Hallway, &vec![], &vec![], &drawn, None);
    // (1, 0) has the obstacle straight to its south.
    assert_eq!(m.get_cover(1, 0, Direction::South), CoverLevel::Full);
    assert_eq!(m.get_cover(1, 0, Direction::North), CoverLevel::NoCover);
}

#[test]
fn excavation_site_tunnel_opens_from_loop_3() {
    assert_eq!(zone_change(ZoneKind::ExcavationSite, 2), Some(ChangeKind::Block));
    assert_eq!(zone_change(ZoneKind::ExcavationSite, 3), Some(ChangeKind::Clear));
    assert_eq!(zone_change(ZoneKind::MedicalBay, 4), None);
}
