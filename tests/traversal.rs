use s2grid::cell::{from_array_to_cell_id, CellId, GeoPoint};
use s2grid::grid::BuildGrid;
use s2grid::traverse::{lng_band, slot, step, Dir, Traverse};
use std::collections::HashSet;

fn point(lat: i32, lng: i32) -> GeoPoint {
    GeoPoint { lat, lng }
}

fn s2_cell(lat: f64, lng: f64, level: u64) -> u64 {
    s2::cellid::CellID::from(s2::latlng::LatLng::from_degrees(lat, lng)).parent(level).0
}

#[test]
fn cell_of_point_matches_s2() {
    let c = from_array_to_cell_id(point(450_000_000, -930_000_000), 20);
    assert_eq!(c.id, s2_cell(45.0, -93.0, 20));
    assert_eq!(c.face(), s2::cellid::CellID(c.id).face());
}

#[test]
fn band_bounds() {
    assert_eq!(lng_band(0), 0);
    assert_eq!(lng_band(449_999_999), 0);
    assert_eq!(lng_band(450_000_000), 1);
    assert_eq!(lng_band(-1), -1);
    assert_eq!(lng_band(-450_000_000), -1);
    assert_eq!(lng_band(-450_000_001), -2);
    assert_eq!(lng_band(-1_350_000_000), -3);
    assert_eq!(lng_band(-1_350_000_001), -3);
    assert_eq!(lng_band(-1_799_999_999), -3);
    assert_eq!(lng_band(-1_800_000_000), -4);
    assert_eq!(lng_band(1_799_999_999), 3);
    assert_eq!(lng_band(1_800_000_000), 4);
}

#[test]
fn slot_table() {
    assert_eq!(slot(0, 0, Dir::N), Some(2));
    assert_eq!(slot(1, 7, Dir::W), Some(3));
    assert_eq!(slot(3, 0, Dir::N), Some(3));
    assert_eq!(slot(4, 0, Dir::W), Some(0));
    assert_eq!(slot(2, -1, Dir::N), Some(1));
    assert_eq!(slot(2, 2, Dir::E), Some(1));
    assert_eq!(slot(2, -2, Dir::S), Some(2));
    assert_eq!(slot(2, 3, Dir::W), Some(0));
    assert_eq!(slot(5, 0, Dir::S), Some(0));
    assert_eq!(slot(5, 1, Dir::N), Some(1));
    assert_eq!(slot(5, -2, Dir::E), Some(2));
    assert_eq!(slot(5, -3, Dir::W), Some(1));
    assert_eq!(slot(2, 4, Dir::N), None);
    assert_eq!(slot(5, -4, Dir::N), None);
    assert_eq!(slot(6, 0, Dir::N), None);
}

#[test]
fn dir_names() {
    assert_eq!(Dir::N.name(), "North");
    assert_eq!(Dir::E.name(), "East");
    assert_eq!(Dir::S.name(), "South");
    assert_eq!(Dir::W.name(), "West");
}

#[test]
fn step_moves_to_edge_neighbour() {
    let c = from_array_to_cell_id(point(10_000_000, 10_000_000), 12);
    let n = step(c, Dir::N).unwrap();
    assert_ne!(n, c);
    let neighbours = s2::cellid::CellID(c.id).edge_neighbors();
    assert_eq!(c.face(), 0);
    assert_eq!(n.id, neighbours[2].0);
    assert_eq!(step(c, Dir::E).unwrap().id, neighbours[1].0);
    assert_eq!(step(c, Dir::S).unwrap().id, neighbours[0].0);
    assert_eq!(step(c, Dir::W).unwrap().id, neighbours[3].0);
}

#[test]
fn step_there_and_back() {
    let points = [
        point(10_000_000, 10_000_000),
        point(450_000_000, -930_000_000),
        point(-300_000_000, 1_200_000_000),
        point(800_000_000, 200_000_000),
        point(-800_000_000, -700_000_000),
    ];
    for p in points {
        let c = from_array_to_cell_id(p, 16);
        assert_eq!(step(step(c, Dir::N).unwrap(), Dir::S).unwrap(), c);
        assert_eq!(step(step(c, Dir::S).unwrap(), Dir::N).unwrap(), c);
        assert_eq!(step(step(c, Dir::E).unwrap(), Dir::W).unwrap(), c);
        assert_eq!(step(step(c, Dir::W).unwrap(), Dir::E).unwrap(), c);
    }
}

#[test]
fn traverse_counts_steps() {
    let c = from_array_to_cell_id(point(10_000_000, 10_000_000), 12);
    let mut twice = step(step(c, Dir::E).unwrap(), Dir::E).unwrap();
    assert_eq!(c.traverse(Dir::E, 2).unwrap(), twice);
    assert_eq!(c.traverse(Dir::E, 0).unwrap(), c);
    twice.traverse_mut(Dir::W, 2).unwrap();
    assert_eq!(twice, c);
}

#[test]
fn grid_sizes() {
    let c: CellId = from_array_to_cell_id(point(10_000_000, 10_000_000), 14);
    assert!(c.build_grid(0).unwrap().is_empty());
    assert_eq!(c.build_grid(1).unwrap(), vec![c]);
    for size in 2u8..7 {
        let g = c.build_grid(size).unwrap();
        assert_eq!(g.len(), size as usize * size as usize);
        let ids: HashSet<u64> = g.iter().map(|x| x.id).collect();
        assert_eq!(ids.len(), g.len());
    }
}

#[test]
fn grid_rows_walk_east_then_north() {
    let c = from_array_to_cell_id(point(10_000_000, 10_000_000), 14);
    let g = c.build_grid(3).unwrap();
    let corner = c.traverse(Dir::W, 1).unwrap().traverse(Dir::S, 1).unwrap();
    assert_eq!(g[0], corner);
    assert_eq!(g[1], corner.traverse(Dir::E, 1).unwrap());
    assert_eq!(g[3], corner.traverse(Dir::N, 1).unwrap());
    assert_eq!(g[4], c);
    assert_eq!(g[8], c.traverse(Dir::N, 1).unwrap().traverse(Dir::E, 1).unwrap());
}

#[test]
fn grid_cells_share_level() {
    let c = from_array_to_cell_id(point(-335_000_000, 1_510_000_000), 14);
    for x in c.build_grid(5).unwrap() {
        assert!(s2::cellid::CellID(x.id).is_valid());
        assert_eq!(s2::cellid::CellID(x.id).level(), 14);
    }
    let w = c.traverse(Dir::W, 7).unwrap();
    assert_eq!(s2::cellid::CellID(w.id).level(), 14);
}
