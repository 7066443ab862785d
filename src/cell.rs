use s2::cellid::CellID;
use s2::latlng::LatLng;
use s2::s1::{Angle, E7};
use vstd::prelude::*;

verus! {

/// Number of position bits below the face bits of an identifier.
pub const POS_BITS: u64 = 61;

/// A geographic point in degrees scaled by ten million.
#[derive(Clone, Copy, Debug, PartialEq, Eq, Hash, Structural)]
pub struct GeoPoint {
    pub lat: i32,
    pub lng: i32,
}

/// A hierarchical cell identifier.
#[derive(Clone, Copy, Debug, PartialEq, Eq, Structural)]
pub struct CellId {
    pub id: u64,
}

/// The lowest set bit of `id` (zero for zero).
pub open spec fn lsb(id: u64) -> u64 {
    id & ((!id + 1) as u64)
}

/// The lowest set bit of every identifier at `level`.
pub open spec fn lsb_for_level(level: u64) -> u64
    recommends
        level <= 30,
{
    (1u64 << ((2 * (30 - level)) as u64)) as u64
}

/// The cube face that an identifier names.
pub open spec fn face_of(id: u64) -> u64 {
    id >> 61u64
}

/// A well-formed identifier: a face in 0..6 and a lowest set bit at an even position.
pub open spec fn is_valid_cell(id: u64) -> bool {
    face_of(id) < 6 && lsb(id) & 0x1555555555555555u64 != 0
}

/// The identifier lies at `level`.
pub open spec fn is_at_level(id: u64, level: u64) -> bool {
    level <= 30 && lsb(id) == lsb_for_level(level)
}

/// `c` lies at every level that `start` lies at: the two cells are of one size.
pub open spec fn keeps_level(c: u64, start: u64) -> bool {
    forall|l: u64| is_at_level(start, l) ==> #[trigger] is_at_level(c, l)
}

/// Being of one size carries over from cell to cell.
pub proof fn lemma_keeps_level_trans(a: u64, b: u64, c: u64)
    requires
        keeps_level(a, b),
        keeps_level(b, c),
    ensures
        keeps_level(a, c),
{
    assert forall|l: u64| is_at_level(c, l) implies #[trigger] is_at_level(a, l) by {
        assert(is_at_level(b, l));
    }
}

/// The ancestor of `id` at `level`: its bits above that level's lowest bit, then that bit.
pub open spec fn parent_bits(id: u64, level: u64) -> u64 {
    (id & ((!lsb_for_level(level) + 1) as u64)) | lsb_for_level(level)
}

/// The four neighbours across the cell's edges, down, right, up, left on its face.
pub uninterp spec fn edge_neighbors_of(id: u64) -> Seq<u64>;

/// The longitude of the cell's center, in degrees scaled by ten million, rounded.
pub uninterp spec fn center_lng_of(id: u64) -> i32;

/// The leaf cell that holds a point.
pub uninterp spec fn leaf_cell_of(lat: i32, lng: i32) -> u64;

impl CellId {
    pub open spec fn valid(self) -> bool {
        is_valid_cell(self.id)
    }

    /// The cube face, 0 to 5.
    pub fn face(self) -> (r: u8)
        requires
            self.valid(),
        ensures
            r as u64 == face_of(self.id),
            r < 6,
    {
        (self.id >> POS_BITS) as u8
    }
}

/// Relies on `CellID::edge_neighbors` of s2: the four edge neighbours of a
/// valid cell, down, right, up, left, each a valid cell at the cell's level.
#[verifier::external_body]
pub(crate) fn edge_neighbors(id: u64) -> (r: [u64; 4])
    requires
        is_valid_cell(id),
    ensures
        r@ == edge_neighbors_of(id),
        forall|k: int| 0 <= k < 4 ==> #[trigger] is_valid_cell(r@[k]),
        forall|k: int, l: u64| 0 <= k < 4 && is_at_level(id, l) ==> #[trigger] is_at_level(r@[k], l),
{
    let n = CellID(id).edge_neighbors();
    [n[0].0, n[1].0, n[2].0, n[3].0]
}

/// Relies on `Cell::center`, `Point::longitude` and the `E7` conversion of
/// s2: the longitude of a valid cell's center, rounded to 1e-7 degrees.
#[verifier::external_body]
pub(crate) fn center_lng_e7(id: u64) -> (r: i32)
    requires
        is_valid_cell(id),
    ensures
        r == center_lng_of(id),
{
    E7::from(s2::cell::Cell::from(&CellID(id)).center().longitude()).0
}

/// Relies on `CellID::parent` of s2: the ancestor at `level` of a valid cell,
/// computed from the identifier's bits.
#[verifier::external_body]
pub(crate) fn parent(id: u64, level: u64) -> (r: u64)
    requires
        is_valid_cell(id),
        level <= 30,
        exists|l: u64| level <= l && is_at_level(id, l),
    ensures
        r == parent_bits(id, level),
        is_valid_cell(r),
        is_at_level(r, level),
{
    CellID(id).parent(level).0
}

/// Relies on `CellID::from(LatLng)` of s2, with the point built from `E7`
/// angles: the leaf cell that holds the point.
#[verifier::external_body]
pub(crate) fn leaf_cell(p: GeoPoint) -> (r: u64)
    ensures
        r == leaf_cell_of(p.lat, p.lng),
        is_valid_cell(r),
        is_at_level(r, 30),
{
    CellID::from(LatLng::new(Angle::from(E7(p.lat)), Angle::from(E7(p.lng)))).0
}

/// The cell at `level` that holds a point.
pub open spec fn cell_at(p: GeoPoint, level: u64) -> u64 {
    parent_bits(leaf_cell_of(p.lat, p.lng), level)
}

/// The cell at `level` that holds `p`.
pub fn from_array_to_cell_id(p: GeoPoint, level: u64) -> (r: CellId)
    requires
        level <= 30,
    ensures
        r.id == cell_at(p, level),
        r.valid(),
        is_at_level(r.id, level),
{
    let leaf = leaf_cell(p);
    CellId { id: parent(leaf, level) }
}

} // verus!
