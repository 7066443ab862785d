use s2grid::cell::{from_array_to_cell_id, GeoPoint};
use s2grid::coverage::{cell_coverage, circle_coverage, flood_fill, Circle};
use s2grid::grid::BuildGrid;
use s2grid::traverse::{step, Dir};

fn point(lat: i32, lng: i32) -> GeoPoint {
    GeoPoint { lat, lng }
}

#[test]
fn cell_coverage_three_by_three() {
    let center = point(0, 0);
    let covered = cell_coverage(center, 3, 10).unwrap();
    assert_eq!(covered.len(), 9);
    let anchor = from_array_to_cell_id(center, 10);
    assert!(covered.contains(&anchor.id));
    for d in [Dir::N, Dir::E, Dir::S, Dir::W] {
        assert!(covered.contains(&step(anchor, d).unwrap().id));
    }
    let grid = anchor.build_grid(3).unwrap();
    for c in grid {
        assert!(covered.contains(&c.id));
    }
}

#[test]
fn cell_coverage_single() {
    let center = point(450_000_000, -930_000_000);
    let covered = cell_coverage(center, 1, 15).unwrap();
    assert_eq!(covered.len(), 1);
    assert!(covered.contains(&from_array_to_cell_id(center, 15).id));
}

#[test]
fn cell_coverage_empty_block() {
    assert!(cell_coverage(point(0, 0), 0, 10).unwrap().is_empty());
}

#[test]
fn circle_coverage_holds_seed() {
    let center = point(450_000_000, -930_000_000);
    let covered = circle_coverage(center, 500, 20);
    assert!(!covered.is_empty());
    assert!(covered.contains(&from_array_to_cell_id(center, 20).id));
    assert!(covered.len() > 1);
}

#[test]
fn circle_coverage_grows_with_radius() {
    let center = point(450_000_000, -930_000_000);
    let small = circle_coverage(center, 300, 17);
    let large = circle_coverage(center, 900, 17);
    assert!(small.is_subset(&large));
    assert!(large.len() > small.len());
}

#[test]
fn circle_cells_meet_the_circle() {
    let center = point(-335_000_000, 1_510_000_000);
    let circle = Circle::new(center, 700);
    let seed = from_array_to_cell_id(center, 16);
    let covered = flood_fill(seed, &circle);
    assert!(covered.contains(&seed.id));
    for id in covered.iter() {
        let c = s2grid::cell::CellId { id: *id };
        assert!(*id == seed.id || circle.meets_cell(c));
    }
    let far = from_array_to_cell_id(point(0, 0), 16);
    assert!(!circle.meets_cell(far));
}

#[test]
fn circle_cells_at_level() {
    let covered = circle_coverage(point(450_000_000, -930_000_000), 400, 19);
    for id in covered {
        assert!(s2::cellid::CellID(id).is_valid());
        assert_eq!(s2::cellid::CellID(id).level(), 19);
    }
    for id in cell_coverage(point(0, 0), 4, 9).unwrap() {
        assert_eq!(s2::cellid::CellID(id).level(), 9);
    }
}
