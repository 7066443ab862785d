use s2grid::bucket::{create_cell_map, point_bucket};
use s2grid::cell::{from_array_to_cell_id, GeoPoint};
use s2grid::region::{first_cells, get_cells, get_region_cells, parse_cell_ids, REGION_CELL_CAP};

fn point(lat: i32, lng: i32) -> GeoPoint {
    GeoPoint { lat, lng }
}

#[test]
fn buckets_hold_every_point_once() {
    let points = vec![
        point(450_000_000, -930_000_000),
        point(450_010_000, -930_010_000),
        point(-335_000_000, 1_510_000_000),
        point(450_000_000, -930_000_000),
        point(0, 0),
    ];
    let map = create_cell_map(&points, 10);
    let total: usize = map.values().map(|v| v.len()).sum();
    assert_eq!(total, points.len());
    for p in &points {
        let key = point_bucket(*p, 10);
        assert!(map[&key].contains(p));
        for (k, v) in &map {
            if *k != key {
                assert!(!v.contains(p));
            }
        }
    }
    let first = point_bucket(points[0], 10);
    assert_eq!(map[&first], vec![points[0], points[1], points[3]]);
    assert_eq!(map.len(), 3);
}

#[test]
fn bucket_is_ancestor_of_level_twenty_cell() {
    let p = point(450_000_000, -930_000_000);
    let fine = from_array_to_cell_id(p, 20);
    assert_eq!(point_bucket(p, 8), s2::cellid::CellID(fine.id).parent(8).0);
    assert_eq!(point_bucket(p, 20), fine.id);
}

#[test]
fn empty_points_no_buckets() {
    assert!(create_cell_map(&vec![], 5).is_empty());
}

#[test]
fn first_cells_caps() {
    let ids: Vec<u64> = vec![5, 7, 9, 11, 13];
    let r = first_cells(&ids, 3);
    assert_eq!(r.iter().map(|c| c.id).collect::<Vec<u64>>(), vec![5, 7, 9]);
    assert_eq!(first_cells(&ids, 10).len(), 5);
    assert!(first_cells(&ids, 0).is_empty());
}

#[test]
fn region_cells_small_box() {
    let lo = point(450_000_000, -930_000_000);
    let hi = point(450_100_000, -929_900_000);
    let cells = get_cells(12, lo, hi);
    let all = get_region_cells(lo, hi, 12);
    assert!(!cells.is_empty());
    assert_eq!(cells.len(), all.len());
    for c in &cells {
        assert_eq!(s2::cellid::CellID(c.id).level(), 12);
    }
}

#[test]
fn region_cells_capped() {
    let lo = point(400_000_000, -1_000_000_000);
    let hi = point(425_000_000, -975_000_000);
    let all = get_region_cells(lo, hi, 14);
    assert!(all.len() > REGION_CELL_CAP);
    let cells = get_cells(14, lo, hi);
    assert_eq!(cells.len(), REGION_CELL_CAP);
    assert_eq!(cells[0].id, all[0]);
}

#[test]
fn parse_ids_skips_bad() {
    let ids = vec![
        "9749618446378729472".to_string(),
        "abc".to_string(),
        "".to_string(),
        "+12".to_string(),
        "18446744073709551616".to_string(),
        "-1".to_string(),
    ];
    let r = parse_cell_ids(&ids);
    assert_eq!(r.iter().map(|c| c.id).collect::<Vec<u64>>(), vec![9749618446378729472, 12]);
}

#[test]
fn bucket_keys_at_split_level() {
    let points = vec![point(450_000_000, -930_000_000), point(-335_000_000, 1_510_000_000)];
    for k in create_cell_map(&points, 7).keys() {
        assert!(s2::cellid::CellID(*k).is_valid());
        assert_eq!(s2::cellid::CellID(*k).level(), 7);
    }
}
