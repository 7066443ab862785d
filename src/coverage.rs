use crate::cell::{
    edge_neighbors, edge_neighbors_of, from_array_to_cell_id, cell_at, is_at_level,
    is_valid_cell, keeps_level, CellId, GeoPoint,
};
use crate::grid::BuildGrid;
use crate::traverse::Traverse;
use crate::traverse::TraverseError;
use geo::{Destination, Haversine, Intersects};
use s2::cellid::CellID;
use s2::latlng::LatLng;
use s2::s1::{Angle, E7};
use std::collections::HashSet;
use vstd::prelude::*;
use vstd::set_lib::{lemma_int_range, lemma_len_subset, lemma_map_size, set_int_range};

verus! {

broadcast use vstd::std_specs::hash::group_hash_axioms;

/// Number of vertices of the polygon that stands for a circle.
pub const CIRCLE_VERTICES: u32 = 60;

/// Degrees between two consecutive vertices of that polygon.
pub const CIRCLE_STEP_DEG: u32 = 6;

/// Whether the polygon of cell `id` meets the polygon of `CIRCLE_VERTICES`
/// vertices around the point (`lat`, `lng`) at `radius_m` meters.
pub uninterp spec fn cell_meets_circle(id: u64, lat: i32, lng: i32, radius_m: u32) -> bool;

/// The vertices of the polygon that stands for a circle, in order; geo's
/// points are held here out of Verus's sight.
#[verifier::external_body]
pub struct Ring {
    points: Vec<geo::Point>,
}

/// What a ring holds: for each vertex in order, the origin (latitude and
/// longitude), the bearing in degrees and the distance in meters that it was
/// placed at.
pub uninterp spec fn ring_points(r: Ring) -> Seq<(i32, i32, u32, u32)>;

/// The vertices of the polygon that stands for the circle of `radius_m` meters
/// around `center`: one at each multiple of `CIRCLE_STEP_DEG` degrees of bearing.
pub open spec fn circle_ring(center: GeoPoint, radius_m: u32) -> Seq<(i32, i32, u32, u32)> {
    Seq::new(
        CIRCLE_VERTICES as nat,
        |j: int| (center.lat, center.lng, (CIRCLE_STEP_DEG * j) as u32, radius_m),
    )
}

/// A circle on the sphere, held with the polygon that approximates it.
pub struct Circle {
    center: GeoPoint,
    radius_m: u32,
    ring: Ring,
}

/// Relies on `Vec::new` alone: a ring without vertices.
#[verifier::external_body]
fn empty_ring() -> (r: Ring)
    ensures
        ring_points(r) == Seq::<(i32, i32, u32, u32)>::empty(),
{
    Ring { points: Vec::new() }
}

/// Relies on `Haversine::destination` of geo, with the origin built by
/// `LatLng::new` from `E7` angles of s2: appends the point `meters` away from
/// `origin` on the great circle at `bearing_deg`.
#[verifier::external_body]
fn push_destination(ring: &mut Ring, origin: GeoPoint, bearing_deg: u32, meters: u32)
    ensures
        ring_points(*final(ring)) == ring_points(*old(ring)).push((origin.lat, origin.lng, bearing_deg, meters)),
{
    let ll = LatLng::new(Angle::from(E7(origin.lat)), Angle::from(E7(origin.lng)));
    let o = geo::Point::new(ll.lng.deg(), ll.lat.deg());
    ring.points.push(Haversine::destination(o, bearing_deg.into(), meters.into()));
}

/// Relies on `Cell::vertices` of s2 and `Intersects` of geo: whether the
/// polygon through the cell's four vertices meets the polygon through the
/// ring's vertices, which are those of `circle_ring` for the circle's center
/// and radius.
#[verifier::external_body]
fn meets(id: u64, circle: &Circle) -> (r: bool)
    requires
        is_valid_cell(id),
        circle.well_formed(),
    ensures
        r == cell_meets_circle(id, circle.center_point().lat, circle.center_point().lng, circle.radius()),
{
    let v = s2::cell::Cell::from(&CellID(id)).vertices();
    let ring: Vec<geo::Point> =
        v.iter().map(|p| geo::Point::new(p.longitude().deg(), p.latitude().deg())).collect();
    let circle_polygon = geo::Polygon::new(geo::LineString::from(circle.ring.points.clone()), vec![]);
    geo::Polygon::new(geo::LineString::from(ring), vec![]).intersects(&circle_polygon)
}

impl Circle {
    /// The circle of `radius_m` meters around `center`, as a polygon whose
    /// vertices lie at bearings 0, 6, ..., 354 degrees.
    pub fn new(center: GeoPoint, radius_m: u32) -> (r: Circle)
        ensures
            r.center_point() == center,
            r.radius() == radius_m,
            r.vertices() == circle_ring(center, radius_m),
            r.well_formed(),
    {
        let mut ring = empty_ring();
        let mut i: u32 = 0;
        while i < CIRCLE_VERTICES
            invariant
                i <= CIRCLE_VERTICES,
                ring_points(ring) =~= circle_ring(center, radius_m).take(i as int),
            decreases CIRCLE_VERTICES - i,
        {
            push_destination(&mut ring, center, i * CIRCLE_STEP_DEG, radius_m);
            i = i + 1;
        }
        let r = Circle { center, radius_m, ring };
        assert(r.vertices() =~= circle_ring(center, radius_m));
        r
    }

    /// Whether the cell's polygon meets the circle's.
    pub fn meets_cell(&self, c: CellId) -> (r: bool)
        requires
            c.valid(),
            self.well_formed(),
        ensures
            r == self.meets_spec(c.id),
    {
        meets(c.id, self)
    }

    pub open spec fn meets_spec(&self, id: u64) -> bool {
        cell_meets_circle(id, self.center_point().lat, self.center_point().lng, self.radius())
    }

    /// The circle's center.
    pub closed spec fn center_point(&self) -> GeoPoint {
        self.center
    }

    /// The circle's radius in meters.
    pub closed spec fn radius(&self) -> u32 {
        self.radius_m
    }

    /// What the circle's polygon was built from, vertex by vertex.
    pub closed spec fn vertices(&self) -> Seq<(i32, i32, u32, u32)> {
        ring_points(self.ring)
    }

    /// The polygon is the one that stands for the circle's center and radius.
    pub open spec fn well_formed(&self) -> bool {
        self.vertices() == circle_ring(self.center_point(), self.radius())
    }
}

/// Every neighbour of `x` that meets the circle is in `s`.
pub open spec fn closed_at(s: Set<u64>, x: u64, center: GeoPoint, radius_m: u32) -> bool {
    forall|k: int|
        0 <= k < 4 && #[trigger] cell_meets_circle(edge_neighbors_of(x)[k], center.lat, center.lng, radius_m)
            ==> s.contains(edge_neighbors_of(x)[k])
}

/// What a flood fill from `seed` over the cells that meet the circle returns:
/// the seed, only cells that meet the circle besides it, each reached from the
/// seed through such cells, and every neighbour of a returned cell that meets
/// the circle.
pub open spec fn is_fill(s: Set<u64>, seed: u64, center: GeoPoint, radius_m: u32) -> bool {
    &&& s.contains(seed)
    &&& forall|x: u64| #[trigger] s.contains(x) ==> x == seed || cell_meets_circle(x, center.lat, center.lng, radius_m)
    &&& forall|x: u64| #[trigger] s.contains(x) ==> closed_at(s, x, center, radius_m)
    &&& reached_from(s, seed)
}

/// `pred` and `depth` show each cell of `s` reached from `seed`: every cell but
/// the seed is neighbour `pred[x].1` of the cell `pred[x].0` of `s`, which lies
/// nearer the seed.
pub open spec fn reach_witness(s: Set<u64>, seed: u64, pred: Map<u64, (u64, int)>, depth: Map<u64, nat>) -> bool {
    forall|x: u64| #[trigger] s.contains(x) ==> {
        &&& depth.contains_key(x)
        &&& x != seed ==> {
            &&& pred.contains_key(x)
            &&& s.contains(pred[x].0)
            &&& 0 <= pred[x].1 < 4
            &&& edge_neighbors_of(pred[x].0)[pred[x].1] == x
            &&& depth.contains_key(pred[x].0)
            &&& depth[pred[x].0] < depth[x]
        }
    }
}

/// Every cell of `s` is reached from `seed` through neighbours in `s`.
pub open spec fn reached_from(s: Set<u64>, seed: u64) -> bool {
    exists|pred: Map<u64, (u64, int)>, depth: Map<u64, nat>| reach_witness(s, seed, pred, depth)
}

/// A finite set of `u64` holds at most 2^64 values.
proof fn lemma_u64_set_len(s: Set<u64>)
    requires
        s.finite(),
    ensures
        s.len() <= 0x1_0000_0000_0000_0000,
{
    let f = |x: u64| x as int;
    let t = s.map(f);
    assert(vstd::relations::injective_on(f, s));
    lemma_map_size(s, t, f);
    lemma_int_range(0, 0x1_0000_0000_0000_0000);
    assert(t.subset_of(set_int_range(0, 0x1_0000_0000_0000_0000)));
    lemma_len_subset(t, set_int_range(0, 0x1_0000_0000_0000_0000));
}

/// The cells reached from `seed` through neighbours that meet `circle`.
pub fn flood_fill(seed: CellId, circle: &Circle) -> (r: HashSet<u64>)
    requires
        seed.valid(),
        circle.well_formed(),
    ensures
        is_fill(r@, seed.id, circle.center_point(), circle.radius()),
        forall|x: u64| #[trigger] r@.contains(x) ==> is_valid_cell(x) && keeps_level(x, seed.id),
{
    let mut covered: HashSet<u64> = HashSet::new();
    let mut queue: Vec<u64> = Vec::new();
    covered.insert(seed.id);
    queue.push(seed.id);
    assert(queue@[0] == seed.id);
    let ghost mut pred: Map<u64, (u64, int)> = Map::empty();
    let ghost mut depth: Map<u64, nat> = map![seed.id => 0nat];
    while queue.len() > 0
        invariant
            covered@.finite(),
            covered@.contains(seed.id),
            circle.well_formed(),
            forall|x: u64| #[trigger] covered@.contains(x) ==> is_valid_cell(x) && keeps_level(x, seed.id),
            forall|x: u64| #[trigger] covered@.contains(x) ==> x == seed.id || circle.meets_spec(x),
            forall|i: int| 0 <= i < queue@.len() ==> covered@.contains(#[trigger] queue@[i]),
            forall|x: u64| #[trigger] covered@.contains(x) ==> queue@.contains(x) || closed_at(covered@, x, circle.center_point(), circle.radius()),
            reach_witness(covered@, seed.id, pred, depth),
        decreases 5 * (0x1_0000_0000_0000_0000 - covered@.len()) + queue@.len(),
    {
        proof {
            lemma_u64_set_len(covered@);
        }
        let ghost measure = 5 * (0x1_0000_0000_0000_0000 - covered@.len()) + queue@.len();
        let ghost queue0 = queue@;
        let x = queue.pop().unwrap();
        assert(queue0[queue0.len() - 1] == x);
        let ghost rest = queue@;
        assert(rest =~= queue0.drop_last());
        proof {
            assert forall|y: u64| #[trigger] covered@.contains(y) implies y == x || queue@.contains(y) || closed_at(covered@, y, circle.center_point(), circle.radius()) by {
                if y != x && queue0.contains(y) {
                    let w = choose|w: int| 0 <= w < queue0.len() && queue0[w] == y;
                    assert(w < queue0.len() - 1);
                    assert(queue@[w] == y);
                }
            }
        }
        let nbs = edge_neighbors(x);
        proof {
            assert forall|j: int| 0 <= j < 4 implies #[trigger] keeps_level(nbs@[j], seed.id) by {
                assert forall|l: u64| is_at_level(seed.id, l) implies #[trigger] is_at_level(nbs@[j], l) by {
                    assert(is_at_level(x, l));
                }
            }
        }
        let mut k: usize = 0;
        while k < 4
            invariant
                0 <= k <= 4,
                nbs@ == edge_neighbors_of(x),
                forall|j: int| 0 <= j < 4 ==> #[trigger] is_valid_cell(nbs@[j]),
                covered@.finite(),
                covered@.contains(seed.id),
                covered@.contains(x),
                circle.well_formed(),
                keeps_level(x, seed.id),
                forall|j: int| 0 <= j < 4 ==> #[trigger] keeps_level(nbs@[j], seed.id),
                forall|y: u64| #[trigger] covered@.contains(y) ==> is_valid_cell(y) && keeps_level(y, seed.id),
                forall|y: u64| #[trigger] covered@.contains(y) ==> y == seed.id || circle.meets_spec(y),
                forall|i: int| 0 <= i < queue@.len() ==> covered@.contains(#[trigger] queue@[i]),
                forall|y: u64| #[trigger] covered@.contains(y) ==> y == x || queue@.contains(y) || closed_at(covered@, y, circle.center_point(), circle.radius()),
                forall|j: int| 0 <= j < k && #[trigger] circle.meets_spec(nbs@[j]) ==> covered@.contains(nbs@[j]),
                forall|i: int| 0 <= i < rest.len() ==> queue@.contains(#[trigger] rest[i]),
                5 * (0x1_0000_0000_0000_0000 - covered@.len()) + queue@.len() < measure,
                reach_witness(covered@, seed.id, pred, depth),
                covered@.len() <= 0x1_0000_0000_0000_0000,
            decreases 4 - k,
        {
            let n = nbs[k];
            if !covered.contains(&n) {
                if circle.meets_cell(CellId { id: n }) {
                    proof {
                        lemma_u64_set_len(covered@.insert(n));
                    }
                    let ghost q0 = queue@;
                    covered.insert(n);
                    queue.push(n);
                    proof {
                        let dn = depth[x] + 1;
                        pred = pred.insert(n, (x, k as int));
                        depth = depth.insert(n, dn);
                    }
                    proof {
                        assert forall|i: int| 0 <= i < rest.len() implies queue@.contains(#[trigger] rest[i]) by {
                            assert(q0.contains(rest[i]));
                            let w = choose|w: int| 0 <= w < q0.len() && q0[w] == rest[i];
                            assert(queue@[w] == rest[i]);
                        }
                        assert forall|y: u64| #[trigger] covered@.contains(y) implies y == x || queue@.contains(y) || closed_at(covered@, y, circle.center_point(), circle.radius()) by {
                            if y == n {
                                assert(queue@[queue@.len() - 1] == n);
                            } else if y != x && q0.contains(y) {
                                let w = choose|w: int| 0 <= w < q0.len() && q0[w] == y;
                                assert(queue@[w] == y);
                            }
                        }
                    }
                }
            }
            k = k + 1;
        }
        proof {
            let c = circle.center_point();
            assert forall|j: int|
                0 <= j < 4 && #[trigger] cell_meets_circle(edge_neighbors_of(x)[j], c.lat, c.lng, circle.radius())
                implies covered@.contains(edge_neighbors_of(x)[j]) by {
                assert(circle.meets_spec(nbs@[j]));
            }
            assert(closed_at(covered@, x, circle.center_point(), circle.radius()));
            assert forall|y: u64| #[trigger] covered@.contains(y) implies queue@.contains(y) || closed_at(covered@, y, circle.center_point(), circle.radius()) by {
                if y != x && !queue@.contains(y) {
                    assert(closed_at(covered@, y, circle.center_point(), circle.radius()));
                }
            }
        }
    }
    assert(reach_witness(covered@, seed.id, pred, depth));
    covered
}

/// The cells at `level` reached from the one that holds `center` through
/// neighbours that meet the circle of `radius_m` meters around it.
pub fn circle_coverage(center: GeoPoint, radius_m: u32, level: u8) -> (r: HashSet<u64>)
    requires
        level <= 30,
    ensures
        is_fill(r@, cell_at(center, level as u64), center, radius_m),
        forall|x: u64| #[trigger] r@.contains(x) ==> is_valid_cell(x) && is_at_level(x, level as u64),
{
    let circle = Circle::new(center, radius_m);
    let seed = from_array_to_cell_id(center, level as u64);
    let r = flood_fill(seed, &circle);
    assert forall|x: u64| #[trigger] r@.contains(x) implies is_valid_cell(x) && is_at_level(x, level as u64) by {
        assert(keeps_level(x, seed.id));
    }
    r
}

/// The identifiers of a sequence of cells, as a set.
pub open spec fn id_set(cells: Seq<CellId>) -> Set<u64> {
    cells.map_values(|c: CellId| c.id).to_set()
}

/// The cell at `level` that holds `center` alone when `size` is 1, else the
/// `size` by `size` block around it.
pub fn cell_coverage(center: GeoPoint, size: u8, level: u8) -> (r: Result<HashSet<u64>, TraverseError>)
    requires
        level <= 30,
    ensures
        size == 1 ==> (r matches Ok(s) && s@ == set![cell_at(center, level as u64)]),
        size != 1 ==> match (r, CellId { id: cell_at(center, level as u64) }.grid(size as nat)) {
            (Ok(s), Some(g)) => s@ == id_set(g),
            (Err(_), None) => true,
            _ => false,
        },
        r matches Ok(s) ==> forall|x: u64| #[trigger] s@.contains(x) ==> is_valid_cell(x) && is_at_level(x, level as u64),
{
    let anchor = from_array_to_cell_id(center, level as u64);
    let mut covered: HashSet<u64> = HashSet::new();
    if size == 1 {
        covered.insert(anchor.id);
        assert(covered@ =~= set![anchor.id]);
        return Ok(covered);
    }
    let cells = match anchor.build_grid(size) {
        Ok(cells) => cells,
        Err(e) => return Err(e),
    };
    assert forall|j: int| 0 <= j < cells@.len() implies #[trigger] is_valid_cell(cells@[j].id) && is_at_level(cells@[j].id, level as u64) by {
        assert(cells@[j].level_kept(&anchor));
    }
    let mut i: usize = 0;
    while i < cells.len()
        invariant
            0 <= i <= cells@.len(),
            covered@ == id_set(cells@.subrange(0, i as int)),
            forall|j: int| 0 <= j < cells@.len() ==> #[trigger] is_valid_cell(cells@[j].id) && is_at_level(cells@[j].id, level as u64),
        decreases cells@.len() - i,
    {
        proof {
            let a = cells@.subrange(0, i as int);
            let b = cells@.subrange(0, i as int + 1);
            assert(b =~= a.push(cells@[i as int]));
            assert(b.map_values(|c: CellId| c.id) =~= a.map_values(|c: CellId| c.id).push(cells@[i as int].id));
            a.map_values(|c: CellId| c.id).lemma_push_to_set_commute(cells@[i as int].id);
        }
        covered.insert(cells[i].id);
        i = i + 1;
    }
    assert(cells@.subrange(0, cells@.len() as int) =~= cells@);
    assert forall|x: u64| #[trigger] covered@.contains(x) implies is_valid_cell(x) && is_at_level(x, level as u64) by {
        let m = cells@.map_values(|c: CellId| c.id);
        assert(m.contains(x));
        let j = choose|j: int| 0 <= j < m.len() && m[j] == x;
        assert(cells@[j].id == x);
    }
    Ok(covered)
}

} // verus!
