use crate::cell::{
    center_lng_e7, center_lng_of, edge_neighbors, edge_neighbors_of, face_of, is_at_level,
    keeps_level, lemma_keeps_level_trans, CellId,
};
use vstd::prelude::*;

verus! {

/// A compass direction.
#[derive(Clone, Copy, Debug, PartialEq, Eq, Structural)]
pub enum Dir {
    N,
    E,
    S,
    W,
}

impl Dir {
    /// The direction's name.
    pub fn name(self) -> (r: &'static str)
        ensures
            r@ == dir_name(self),
    {
        match self {
            Dir::N => "North",
            Dir::E => "East",
            Dir::S => "South",
            Dir::W => "West",
        }
    }
}

pub open spec fn dir_name(d: Dir) -> Seq<char> {
    match d {
        Dir::N => "North"@,
        Dir::E => "East"@,
        Dir::S => "South"@,
        Dir::W => "West"@,
    }
}

/// The direction pointing back.
pub open spec fn opposite(d: Dir) -> Dir {
    match d {
        Dir::N => Dir::S,
        Dir::E => Dir::W,
        Dir::S => Dir::N,
        Dir::W => Dir::E,
    }
}

/// A step could not be taken: the cell's center longitude falls in no band
/// known for its face.
#[derive(Clone, Copy, Debug, PartialEq, Eq, Structural)]
pub struct TraverseError {
    pub face: u8,
    pub band: i8,
}

/// Longitude in degrees scaled by ten million per 45 degree band.
pub const BAND_WIDTH: i64 = 450_000_000;

/// The 45 degree band of a longitude given in degrees scaled by ten million:
/// rounded up below -135 degrees, rounded down from there on.
pub open spec fn band_of(lng: int) -> int {
    if lng < -3 * BAND_WIDTH {
        -((-lng) / (BAND_WIDTH as int))
    } else {
        lng / (BAND_WIDTH as int)
    }
}

/// The neighbour slot that a direction takes on face 0: the slots run down,
/// right, up, left.
pub open spec fn base_slot(d: Dir) -> int {
    match d {
        Dir::S => 0,
        Dir::E => 1,
        Dir::N => 2,
        Dir::W => 3,
    }
}

/// How far the local axes of a face are turned, in quarter turns, given the
/// band of the cell's longitude; `None` where no turn is known.
pub open spec fn rotation(face: int, band: int) -> Option<int> {
    if face == 0 || face == 1 {
        Some(0)
    } else if face == 3 || face == 4 {
        Some(1)
    } else if face == 2 {
        if band == -1 || band == 0 {
            Some(3)
        } else if band == 1 || band == 2 {
            Some(0)
        } else if band == -2 {
            Some(2)
        } else if band == -3 || band == 3 {
            Some(1)
        } else {
            None
        }
    } else if face == 5 {
        if band == -1 || band == 0 {
            Some(0)
        } else if band == 1 || band == 2 {
            Some(3)
        } else if band == -2 {
            Some(1)
        } else if band == -3 || band == 3 {
            Some(2)
        } else {
            None
        }
    } else {
        None
    }
}

/// The neighbour slot that `d` takes on `face` in `band`.
pub open spec fn slot_of(face: int, band: int, d: Dir) -> Option<int> {
    match rotation(face, band) {
        Some(r) => Some((base_slot(d) + r) % 4),
        None => None,
    }
}

/// The cell one step from `id` towards `d`, or `None` where no step is defined.
pub open spec fn step_spec(id: u64, d: Dir) -> Option<u64> {
    match slot_of(face_of(id) as int, band_of(center_lng_of(id) as int), d) {
        Some(k) => Some(edge_neighbors_of(id)[k]),
        None => None,
    }
}

/// The cell `n` steps from `id` towards `d`, each step taken from the last.
pub open spec fn walk_spec(id: u64, d: Dir, n: nat) -> Option<u64>
    decreases n,
{
    if n == 0 {
        Some(id)
    } else {
        match walk_spec(id, d, (n - 1) as nat) {
            Some(c) => step_spec(c, d),
            None => None,
        }
    }
}

/// The band of a longitude in degrees scaled by ten million.
pub fn lng_band(lng: i32) -> (r: i8)
    ensures
        r as int == band_of(lng as int),
{
    // Shift by five bands so that the division is over naturals.
    let w: u64 = BAND_WIDTH as u64;
    let y: u64 = (lng as i64 + 5 * BAND_WIDTH) as u64;
    if (lng as i64) < -3 * BAND_WIDTH {
        let q: u64 = (y + w - 1) / w;
        proof {
            // ceil(lng / w) == ceil(y / w) - 5
            let l = lng as int;
            let wi = w as int;
            assert(-l == 5 * wi - y as int);
            assert((y as int + wi - 1) / wi == 5 - ((5 * wi - y as int) / wi)) by (nonlinear_arith)
                requires
                    wi == 450_000_000,
                    0 <= y as int <= 5 * wi,
            {
                let a = 5 * wi - y as int;
                let qa = a / wi;
                let ra = a % wi;
                assert(a == qa * wi + ra);
                assert(0 <= ra < wi);
                if ra == 0 {
                    assert(y as int + wi - 1 == (5 - qa) * wi + (wi - 1));
                } else {
                    assert(y as int + wi - 1 == (5 - qa - 1) * wi + (2 * wi - ra - 1) - wi + wi);
                    assert(y as int + wi - 1 == (5 - qa) * wi + (wi - ra - 1));
                }
            };
        }
        (q as i64 - 5) as i8
    } else {
        let q: u64 = y / w;
        proof {
            let l = lng as int;
            let wi = w as int;
            assert(l == y as int - 5 * wi);
            assert(l / wi == (y as int) / wi - 5) by (nonlinear_arith)
                requires
                    wi == 450_000_000,
                    l == y as int - 5 * wi,
                    y as int >= 0,
            {
                let qy = (y as int) / wi;
                let ry = (y as int) % wi;
                assert(y as int == qy * wi + ry);
                assert(l == (qy - 5) * wi + ry);
            };
        }
        (q as i64 - 5) as i8
    }
}


/// The neighbour slot that `d` takes on `face` in `band`.
pub fn slot(face: u8, band: i8, d: Dir) -> (r: Option<usize>)
    ensures
        match r {
            Some(k) => slot_of(face as int, band as int, d) == Some(k as int),
            None => slot_of(face as int, band as int, d).is_none(),
        },
{
    // Down, right, up, left on the face.
    let upright: [usize; 4] = [2, 1, 0, 3];
    let quarter: [usize; 4] = [3, 2, 1, 0];
    let half: [usize; 4] = [0, 3, 2, 1];
    let three_quarter: [usize; 4] = [1, 0, 3, 2];
    let table = match face {
        0 | 1 => upright,
        3 | 4 => quarter,
        2 => match band {
            -1 | 0 => three_quarter,
            1 | 2 => upright,
            -2 => half,
            -3 | 3 => quarter,
            _ => return None,
        },
        5 => match band {
            -1 | 0 => upright,
            1 | 2 => three_quarter,
            -2 => quarter,
            -3 | 3 => half,
            _ => return None,
        },
        _ => return None,
    };
    let k = match d {
        Dir::N => table[0],
        Dir::E => table[1],
        Dir::S => table[2],
        Dir::W => table[3],
    };
    Some(k)
}

/// The cell one step from `c` towards `d`.
pub fn step(c: CellId, d: Dir) -> (r: Result<CellId, TraverseError>)
    requires
        c.valid(),
    ensures
        match r {
            Ok(n) => step_spec(c.id, d) == Some(n.id) && n.valid() && keeps_level(n.id, c.id),
            Err(e) => step_spec(c.id, d).is_none() && e.face as int == face_of(c.id)
                && e.band as int == band_of(center_lng_of(c.id) as int),
        },
{
    let neighbors = edge_neighbors(c.id);
    let band = lng_band(center_lng_e7(c.id));
    let face = c.face();
    match slot(face, band, d) {
        Some(k) => {
            assert forall|l: u64| is_at_level(c.id, l) implies #[trigger] is_at_level(neighbors[k as int], l) by {}
            Ok(CellId { id: neighbors[k] })
        },
        None => Err(TraverseError { face, band }),
    }
}

/// Walking a grid by compass directions.
pub trait Traverse: Sized {
    /// The value can be walked from.
    spec fn traversable(&self) -> bool;

    /// The value is of the same size as `start`.
    spec fn level_kept(&self, start: &Self) -> bool;

    /// Where `count` steps towards `dir` lead, or `None` where a step fails.
    spec fn walked(&self, dir: Dir, count: nat) -> Option<Self>;

    /// `count` steps towards `dir`.
    fn traverse(self, dir: Dir, count: u8) -> (r: Result<Self, TraverseError>)
        requires
            self.traversable(),
        ensures
            match r {
                Ok(c) => self.walked(dir, count as nat) == Some(c) && c.traversable() && c.level_kept(&self),
                Err(_) => self.walked(dir, count as nat).is_none(),
            },
    ;

    /// `count` steps towards `dir`, in place; on failure the value is kept.
    fn traverse_mut(&mut self, dir: Dir, count: u8) -> (r: Result<(), TraverseError>)
        requires
            old(self).traversable(),
        ensures
            final(self).traversable(),
            final(self).level_kept(old(self)),
            match r {
                Ok(_) => old(self).walked(dir, count as nat) == Some(*final(self)),
                Err(_) => old(self).walked(dir, count as nat).is_none() && *final(self) == *old(self),
            },
    ;
}

/// The cell `n` steps from `c` towards `d`.
pub open spec fn walk_cell(c: CellId, d: Dir, n: nat) -> Option<CellId> {
    match walk_spec(c.id, d, n) {
        Some(id) => Some(CellId { id }),
        None => None,
    }
}

impl Traverse for CellId {
    open spec fn traversable(&self) -> bool {
        self.valid()
    }

    open spec fn level_kept(&self, start: &CellId) -> bool {
        keeps_level(self.id, start.id)
    }

    open spec fn walked(&self, dir: Dir, count: nat) -> Option<CellId> {
        walk_cell(*self, dir, count)
    }

    fn traverse(self, dir: Dir, count: u8) -> (r: Result<CellId, TraverseError>) {
        let mut c = self;
        match c.traverse_mut(dir, count) {
            Ok(()) => Ok(c),
            Err(e) => Err(e),
        }
    }

    fn traverse_mut(&mut self, dir: Dir, count: u8) -> (r: Result<(), TraverseError>) {
        let mut cur = *self;
        let mut i: u8 = 0;
        assert(keeps_level(cur.id, self.id));
        while i < count
            invariant
                i <= count,
                *self == *old(self),
                self.valid(),
                cur.valid(),
                keeps_level(cur.id, self.id),
                walk_spec(self.id, dir, i as nat) == Some(cur.id),
            decreases count - i,
        {
            match step(cur, dir) {
                Ok(n) => {
                    proof {
                        lemma_keeps_level_trans(n.id, cur.id, self.id);
                    }
                    cur = n;
                },
                Err(e) => {
                    proof {
                        lemma_walk_stuck(self.id, dir, (i + 1) as nat, count as nat);
                    }
                    assert(keeps_level(self.id, self.id));
                    return Err(e);
                },
            }
            i = i + 1;
        }
        *self = cur;
        Ok(())
    }
}

/// Wherever a step is defined, a direction and its opposite take neighbour
/// slots across the cell from each other (down and up, or right and left), on
/// every face and in every band.
pub proof fn lemma_opposite_slots(face: int, band: int, d: Dir)
    requires
        rotation(face, band).is_some(),
    ensures
        slot_of(face, band, opposite(d)).is_some(),
        slot_of(face, band, opposite(d)).unwrap() == (slot_of(face, band, d).unwrap() + 2) % 4,
{
}

/// Once a walk fails, every longer walk fails.
pub proof fn lemma_walk_stuck(id: u64, d: Dir, m: nat, n: nat)
    requires
        m <= n,
        walk_spec(id, d, m).is_none(),
    ensures
        walk_spec(id, d, n).is_none(),
    decreases n - m,
{
    if m < n {
        lemma_walk_stuck(id, d, (m + 1) as nat, n);
    }
}

} // verus!
