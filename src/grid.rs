use crate::cell::{keeps_level, lemma_keeps_level_trans, CellId};
use crate::traverse::{step, step_spec, walk_cell, walk_spec, Dir, Traverse, TraverseError};
use vstd::prelude::*;

verus! {

/// `p` in front of the cells of `o`, if there are any.
pub open spec fn prepend(p: Seq<CellId>, o: Option<Seq<CellId>>) -> Option<Seq<CellId>> {
    match o {
        Some(s) => Some(p + s),
        None => None,
    }
}

/// The cell one step from `c` towards `d`.
pub open spec fn step_cell(c: CellId, d: Dir) -> Option<CellId> {
    match step_spec(c.id, d) {
        Some(id) => Some(CellId { id }),
        None => None,
    }
}

/// `n` cells walking east from `c`, `c` first.
pub open spec fn row_spec(c: CellId, n: nat) -> Option<Seq<CellId>>
    decreases n,
{
    if n == 0 {
        Some(Seq::empty())
    } else if n == 1 {
        Some(seq![c])
    } else {
        match step_cell(c, Dir::E) {
            Some(e) => prepend(seq![c], row_spec(e, (n - 1) as nat)),
            None => None,
        }
    }
}

/// `r` rows of `n` cells, the first starting at `c` and each next one a step
/// north of the start of the last.
pub open spec fn rows_spec(c: CellId, r: nat, n: nat) -> Option<Seq<CellId>>
    decreases r,
{
    if r == 0 {
        Some(Seq::empty())
    } else if r == 1 {
        row_spec(c, n)
    } else {
        match (row_spec(c, n), step_cell(c, Dir::N)) {
            (Some(s), Some(up)) => prepend(s, rows_spec(up, (r - 1) as nat, n)),
            _ => None,
        }
    }
}

/// The `size` by `size` block around `anchor`, row by row from the south-west
/// corner, or `None` where a step fails.
pub open spec fn grid_spec(anchor: CellId, size: nat) -> Option<Seq<CellId>> {
    let h = size / 2;
    match walk_cell(anchor, Dir::W, h) {
        Some(w) => match walk_cell(w, Dir::S, h) {
            Some(corner) => rows_spec(corner, size, size),
            None => None,
        },
        None => None,
    }
}

/// Building a block of cells around a cell.
pub trait BuildGrid: Traverse {
    /// The value can anchor a block.
    spec fn anchors(&self) -> bool;

    /// The block of `size` by `size` around the value, or `None` where it cannot be built.
    spec fn grid(&self, size: nat) -> Option<Seq<Self>>;

    /// The block of `size` by `size` around the value, row by row.
    fn build_grid(&self, size: u8) -> (r: Result<Vec<Self>, TraverseError>)
        requires
            self.anchors(),
        ensures
            match r {
                Ok(v) => self.grid(size as nat) == Some(v@) && v@.len() == size as nat * size as nat
                    && forall|i: int| 0 <= i < v@.len() ==> (#[trigger] v@[i]).level_kept(self) && v@[i].traversable(),
                Err(_) => self.grid(size as nat).is_none(),
            },
            size == 0 ==> (r matches Ok(v) && v@ == Seq::<Self>::empty()),
            size == 1 ==> (r matches Ok(v) && v@ == seq![*self]),
    ;
}

/// A block of `size` by `size` cells, once built, holds `size * size` cells.
pub proof fn lemma_grid_len(anchor: CellId, size: nat)
    requires
        grid_spec(anchor, size).is_some(),
    ensures
        grid_spec(anchor, size).unwrap().len() == size * size,
{
    let h = size / 2;
    let w = walk_cell(anchor, Dir::W, h).unwrap();
    let corner = walk_cell(w, Dir::S, h).unwrap();
    lemma_rows_len(corner, size, size);
}

/// Rows of `n` cells hold `r * n` cells.
pub proof fn lemma_rows_len(c: CellId, r: nat, n: nat)
    requires
        rows_spec(c, r, n).is_some(),
    ensures
        rows_spec(c, r, n).unwrap().len() == r * n,
    decreases r,
{
    if r == 0 {
        assert(r * n == 0);
    } else if r == 1 {
        lemma_row_len(c, n);
    } else {
        lemma_row_len(c, n);
        let up = step_cell(c, Dir::N).unwrap();
        let s = row_spec(c, n).unwrap();
        lemma_rows_len(up, (r - 1) as nat, n);
        assert(rows_spec(c, r, n) == prepend(s, rows_spec(up, (r - 1) as nat, n)));
        assert(r * n == n + (r - 1) * n) by (nonlinear_arith)
            requires
                r > 0,
        ;
    }
}

/// A row of `n` cells holds `n` cells.
pub proof fn lemma_row_len(c: CellId, n: nat)
    requires
        row_spec(c, n).is_some(),
    ensures
        row_spec(c, n).unwrap().len() == n,
    decreases n,
{
    if n > 1 {
        lemma_row_len(step_cell(c, Dir::E).unwrap(), (n - 1) as nat);
    }
}

/// The row of `n` cells from `c`.
fn build_row(c: CellId, n: u8, out: &mut Vec<CellId>) -> (r: Result<(), TraverseError>)
    requires
        c.valid(),
        n >= 1,
    ensures
        match r {
            Ok(_) => (forall|j: int| old(out)@.len() <= j < final(out)@.len() ==> (#[trigger] final(out)@[j]).valid() && keeps_level(final(out)@[j].id, c.id))
                && final(out)@.len() == old(out)@.len() + n && row_spec(c, n as nat) == Some(final(out)@.subrange(old(out)@.len() as int, final(out)@.len() as int))
                && final(out)@.subrange(0, old(out)@.len() as int) == old(out)@,
            Err(_) => row_spec(c, n as nat).is_none(),
        },
{
    let ghost start = out@.len();
    let mut h = c;
    out.push(h);
    let mut j: u8 = 1;
    assert(keeps_level(c.id, c.id));
    while j < n
        invariant
            1 <= j <= n,
            h.valid(),
            keeps_level(h.id, c.id),
            forall|i: int| start <= i < out@.len() ==> (#[trigger] out@[i]).valid() && keeps_level(out@[i].id, c.id),
            out@.len() == start + j,
            out@.subrange(0, start as int) == old(out)@,
            out@[out@.len() - 1] == h,
            row_spec(c, n as nat) == prepend(
                out@.subrange(start as int, out@.len() - 1),
                row_spec(h, (n - j + 1) as nat),
            ),
        decreases n - j,
    {
        let ghost before = out@;
        match step(h, Dir::E) {
            Ok(e) => {
                proof {
                    let seg = before.subrange(start as int, before.len() - 1);
                    let rest = row_spec(e, (n - j) as nat);
                    assert(row_spec(h, (n - j + 1) as nat) == prepend(seq![h], rest));
                    assert(seg + seq![h] =~= before.subrange(start as int, before.len() as int));
                    if rest.is_some() {
                        assert(seg + (seq![h] + rest.unwrap()) =~= (seg + seq![h]) + rest.unwrap());
                    }
                }
                proof {
                    lemma_keeps_level_trans(e.id, h.id, c.id);
                }
                h = e;
                out.push(h);
                proof {
                    assert(out@.subrange(start as int, out@.len() - 1) =~= before.subrange(start as int, before.len() as int));
                    assert(out@.subrange(0, start as int) =~= before.subrange(0, start as int));
                }
            },
            Err(e) => {
                return Err(e);
            },
        }
        j = j + 1;
    }
    proof {
        assert(row_spec(h, 1) == Some(seq![h]));
        assert(out@.subrange(start as int, out@.len() - 1) + seq![h] =~= out@.subrange(start as int, out@.len() as int));
    }
    Ok(())
}

impl BuildGrid for CellId {
    open spec fn anchors(&self) -> bool {
        self.valid()
    }

    open spec fn grid(&self, size: nat) -> Option<Seq<CellId>> {
        grid_spec(*self, size)
    }

    fn build_grid(&self, size: u8) -> (r: Result<Vec<CellId>, TraverseError>) {
        let half: u8 = size / 2;
        let w = match self.traverse(Dir::W, half) {
            Ok(w) => w,
            Err(e) => return Err(e),
        };
        let mut start = match w.traverse(Dir::S, half) {
            Ok(s) => s,
            Err(e) => return Err(e),
        };
        let ghost corner = start;
        let mut cells: Vec<CellId> = Vec::new();
        let mut i: u8 = 0;
        while i < size
            invariant
                i <= size,
                start.valid(),
                keeps_level(start.id, self.id),
                forall|j: int| 0 <= j < cells@.len() ==> (#[trigger] cells@[j]).valid() && keeps_level(cells@[j].id, self.id),
                self.grid(size as nat) == prepend(cells@, rows_spec(start, (size - i) as nat, size as nat)),
                rows_spec(corner, size as nat, size as nat) == self.grid(size as nat),
            decreases size - i,
        {
            let ghost before = cells@;
            match build_row(start, size, &mut cells) {
                Ok(()) => {},
                Err(e) => {
                    return Err(e);
                },
            }
            let ghost row = cells@.subrange(before.len() as int, cells@.len() as int);
            proof {
                assert forall|j: int| 0 <= j < cells@.len() implies (#[trigger] cells@[j]).valid() && keeps_level(cells@[j].id, self.id) by {
                    if j >= before.len() {
                        assert(cells@[j].valid());
                        lemma_keeps_level_trans(cells@[j].id, start.id, self.id);
                    } else {
                        assert(cells@[j] == before[j]);
                    }
                }
                assert(cells@ =~= before + row);
            }
            if i + 1 == size {
                proof {
                    assert(cells@ + Seq::<CellId>::empty() =~= cells@);
                }
                i = i + 1;
                continue;
            }
            match step(start, Dir::N) {
                Ok(up) => {
                    proof {
                        let rest = rows_spec(up, (size - i - 1) as nat, size as nat);
                        lemma_keeps_level_trans(up.id, start.id, self.id);
                        if rest.is_some() {
                            assert(before + (row + rest.unwrap()) =~= (before + row) + rest.unwrap());
                        }
                    }
                    start = up;
                },
                Err(e) => {
                    return Err(e);
                },
            }
            i = i + 1;
        }
        proof {
            assert(cells@ + Seq::<CellId>::empty() =~= cells@);
            lemma_rows_len(corner, size as nat, size as nat);
            if size == 1 {
                assert(walk_spec(self.id, Dir::W, 0) == Some(self.id));
                assert(rows_spec(*self, 1, 1) == row_spec(*self, 1));
                assert(cells@ =~= seq![*self]);
            }
        }
        Ok(cells)
    }
}

} // verus!
