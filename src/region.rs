use crate::cell::{is_at_level, is_valid_cell, CellId, GeoPoint};
use s2::region::RegionCoverer;
use s2::rect::Rect;
use s2::s1::{Deg, E7};
use vstd::prelude::*;

verus! {

/// Most cells that a region query hands back.
pub const REGION_CELL_CAP: usize = 100_000;

/// The covering, by cells of one level, of the rectangle between two corners,
/// asked of a coverer that aims at `max_cells` cells.
pub uninterp spec fn region_covering(lo: GeoPoint, hi: GeoPoint, level: u8, max_cells: usize) -> Seq<u64>;

/// Relies on `Rect::from_degrees`, with `E7` to `Deg` conversions, and on
/// `RegionCoverer::covering` of s2, with both levels set to `level`, so that
/// every cell of the covering is a valid cell at `level`.
#[verifier::external_body]
fn cover_rect(lo: GeoPoint, hi: GeoPoint, level: u8, max_cells: usize) -> (r: Vec<u64>)
    requires
        level <= 30,
    ensures
        r@ == region_covering(lo, hi, level, max_cells),
        forall|i: int| 0 <= i < r@.len() ==> is_valid_cell(#[trigger] r@[i]) && is_at_level(r@[i], level as u64),
{
    let rect = Rect::from_degrees(
        Deg::from(E7(lo.lat)).0,
        Deg::from(E7(lo.lng)).0,
        Deg::from(E7(hi.lat)).0,
        Deg::from(E7(hi.lng)).0,
    );
    let coverer = RegionCoverer { min_level: level, max_level: level, level_mod: 1, max_cells };
    coverer.covering(&rect).0.iter().map(|c| c.0).collect()
}

/// The cells at `level` that cover the rectangle from `lo` (south-west) to
/// `hi` (north-east).
pub fn get_region_cells(lo: GeoPoint, hi: GeoPoint, level: u8) -> (r: Vec<u64>)
    requires
        level <= 30,
    ensures
        r@ == region_covering(lo, hi, level, REGION_CELL_CAP),
        forall|i: int| 0 <= i < r@.len() ==> is_valid_cell(#[trigger] r@[i]) && is_at_level(r@[i], level as u64),
{
    cover_rect(lo, hi, level, REGION_CELL_CAP)
}

/// The first `cap` identifiers of `ids`, or all of them if there are fewer.
pub fn first_cells(ids: &Vec<u64>, cap: usize) -> (r: Vec<CellId>)
    ensures
        r@.len() == if ids@.len() < cap { ids@.len() } else { cap as nat },
        forall|i: int| 0 <= i < r@.len() ==> #[trigger] r@[i].id == ids@[i],
{
    let mut out: Vec<CellId> = Vec::new();
    let mut i: usize = 0;
    while i < ids.len() && i < cap
        invariant
            i <= ids@.len(),
            i <= cap,
            out@.len() == i,
            forall|j: int| 0 <= j < i ==> #[trigger] out@[j].id == ids@[j],
        decreases ids@.len() - i,
    {
        out.push(CellId { id: ids[i] });
        i = i + 1;
    }
    out
}

/// The cells of `get_region_cells`, at most `REGION_CELL_CAP` of them, in order.
pub fn get_cells(level: u8, lo: GeoPoint, hi: GeoPoint) -> (r: Vec<CellId>)
    requires
        level <= 30,
    ensures
        ({
            let cov = region_covering(lo, hi, level, REGION_CELL_CAP);
            &&& r@.len() == if cov.len() < REGION_CELL_CAP { cov.len() } else { REGION_CELL_CAP as nat }
            &&& forall|i: int| 0 <= i < r@.len() ==> #[trigger] r@[i].id == cov[i]
        }),
        forall|i: int| 0 <= i < r@.len() ==> (#[trigger] r@[i]).valid() && is_at_level(r@[i].id, level as u64),
{
    let ids = get_region_cells(lo, hi, level);
    let r = first_cells(&ids, REGION_CELL_CAP);
    assert forall|i: int| 0 <= i < r@.len() implies (#[trigger] r@[i]).valid() && is_at_level(r@[i].id, level as u64) by {
        assert(r@[i].id == ids@[i]);
    }
    r
}

/// The value of a string of decimal digits.
pub open spec fn digits_value(s: Seq<char>) -> int
    decreases s.len(),
{
    if s.len() == 0 {
        0
    } else {
        digits_value(s.drop_last()) * 10 + (s.last() as int - '0' as int)
    }
}

/// What `str::parse::<u64>` gives: an optional `+`, then one or more decimal
/// digits whose value fits.
pub open spec fn decimal_u64(s: Seq<char>) -> Option<u64> {
    let t = if s.len() > 0 && s[0] == '+' { s.drop_first() } else { s };
    if t.len() > 0 && (forall|i: int| 0 <= i < t.len() ==> '0' <= #[trigger] t[i] <= '9')
        && digits_value(t) <= u64::MAX {
        Some(digits_value(t) as u64)
    } else {
        None
    }
}

/// Relies on `str::parse::<u64>` of std.
#[verifier::external_body]
fn parse_u64(s: &str) -> (r: Option<u64>)
    ensures
        r == decimal_u64(s@),
{
    s.parse::<u64>().ok()
}

/// The identifiers that parse, in order; the others are left out.
pub open spec fn parsed_ids(ids: Seq<String>) -> Seq<u64>
    decreases ids.len(),
{
    if ids.len() == 0 {
        Seq::empty()
    } else {
        match decimal_u64(ids.last()@) {
            Some(v) => parsed_ids(ids.drop_last()).push(v),
            None => parsed_ids(ids.drop_last()),
        }
    }
}

/// The cells named by decimal strings; strings that do not parse are skipped.
pub fn parse_cell_ids(ids: &Vec<String>) -> (r: Vec<CellId>)
    ensures
        r@.len() == parsed_ids(ids@).len(),
        forall|i: int| 0 <= i < r@.len() ==> #[trigger] r@[i].id == parsed_ids(ids@)[i],
{
    let mut out: Vec<CellId> = Vec::new();
    let mut i: usize = 0;
    while i < ids.len()
        invariant
            i <= ids@.len(),
            out@.len() == parsed_ids(ids@.subrange(0, i as int)).len(),
            forall|j: int| 0 <= j < out@.len() ==> #[trigger] out@[j].id == parsed_ids(ids@.subrange(0, i as int))[j],
        decreases ids@.len() - i,
    {
        assert(ids@.subrange(0, i as int + 1).drop_last() =~= ids@.subrange(0, i as int));
        match parse_u64(ids[i].as_str()) {
            Some(v) => out.push(CellId { id: v }),
            None => {},
        }
        i = i + 1;
    }
    assert(ids@.subrange(0, ids@.len() as int) =~= ids@);
    out
}

} // verus!
