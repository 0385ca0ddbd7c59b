//! What it means to solve a puzzle, the top-level solve entry point, and
//! the projection of a boolean assignment back onto cell colors.

use vstd::prelude::*;

use crate::constraint::{
    build_constraints, count_true_at, covers_grid, from_grid, has_col_count, has_col_run,
    has_row_count, has_row_run, is_col_count, is_col_run, is_fixed, is_row_count, is_row_run,
    only_grid, sat_all, sat_constraint, Constraint,
};
use crate::grid::{
    blacks, col_true_count, pos, row_true_count, Cell, Grid,
};
use crate::solver::{solve, Unsatisfiable};

verus! {

/// Cell `p` of the assignment agrees with its fixed color, if it has one.
pub open spec fn fixed_ok(cells: Seq<Cell>, a: Seq<bool>, p: int) -> bool {
    &&& cells[p] == Cell::Black ==> a[p]
    &&& cells[p] == Cell::White ==> !a[p]
}

/// The three horizontal cells starting at `(i, j)` are not all one color.
pub open spec fn row_window_ok(a: Seq<bool>, i: int, j: int, w: int) -> bool {
    &&& !(a[pos(i, j, w)] && a[pos(i, j + 1, w)] && a[pos(i, j + 2, w)])
    &&& a[pos(i, j, w)] || a[pos(i, j + 1, w)] || a[pos(i, j + 2, w)]
}

/// The three vertical cells starting at `(i, j)` are not all one color.
pub open spec fn col_window_ok(a: Seq<bool>, i: int, j: int, w: int) -> bool {
    &&& !(a[pos(i, j, w)] && a[pos(i + 1, j, w)] && a[pos(i + 2, j, w)])
    &&& a[pos(i, j, w)] || a[pos(i + 1, j, w)] || a[pos(i + 2, j, w)]
}

/// Assignment `a` (true = Black, in row-major order) is a solution of `g`:
/// it is total, keeps every fixed cell's color, has no three consecutive
/// same-colored cells in any row or column, and meets every row and column
/// Black-count target exactly.
pub open spec fn solves(g: Grid, a: Seq<bool>) -> bool {
    &&& a.len() == g.n()
    &&& forall|p: int| 0 <= p < g.n() ==> #[trigger] fixed_ok(g.cells@, a, p)
    &&& forall|i: int, j: int|
        0 <= i < g.height && 0 <= j && j + 2 < g.width ==> #[trigger] row_window_ok(
            a,
            i,
            j,
            g.width as int,
        )
    &&& forall|i: int, j: int|
        0 <= i && i + 2 < g.height && 0 <= j < g.width ==> #[trigger] col_window_ok(
            a,
            i,
            j,
            g.width as int,
        )
    &&& forall|i: int|
        0 <= i < g.height ==> #[trigger] row_true_count(a, i, g.width as int, g.width as int)
            == g.row_targets@[i]
    &&& forall|j: int|
        0 <= j < g.width ==> #[trigger] col_true_count(a, j, g.width as int, g.height as int)
            == g.col_targets@[j]
}

/// Counting true cells along an explicit list of row-`i` indices is
/// counting the true cells of row `i`.
proof fn lemma_count_row_shape(a: Seq<bool>, idxs: Seq<usize>, i: int, w: int)
    requires
        forall|jj: int| 0 <= jj < idxs.len() ==> #[trigger] idxs[jj] == pos(i, jj, w),
    ensures
        count_true_at(a, idxs) == row_true_count(a, i, w, idxs.len() as int),
    decreases idxs.len(),
{
    if idxs.len() > 0 {
        let d = idxs.drop_last();
        assert(forall|jj: int| 0 <= jj < d.len() ==> #[trigger] d[jj] == pos(i, jj, w));
        lemma_count_row_shape(a, d, i, w);
        assert(idxs.last() == pos(i, idxs.len() - 1, w));
    }
}

/// Counting true cells along an explicit list of column-`j` indices is
/// counting the true cells of column `j`.
proof fn lemma_count_col_shape(a: Seq<bool>, idxs: Seq<usize>, j: int, w: int)
    requires
        forall|ii: int| 0 <= ii < idxs.len() ==> #[trigger] idxs[ii] == pos(ii, j, w),
    ensures
        count_true_at(a, idxs) == col_true_count(a, j, w, idxs.len() as int),
    decreases idxs.len(),
{
    if idxs.len() > 0 {
        let d = idxs.drop_last();
        assert(forall|ii: int| 0 <= ii < d.len() ==> #[trigger] d[ii] == pos(ii, j, w));
        lemma_count_col_shape(a, d, j, w);
        assert(idxs.last() == pos(idxs.len() - 1, j, w));
    }
}

/// An assignment that satisfies every constraint of a set covering the
/// grid's rules is a solution of the grid: fixed cells keep their colors,
/// no row or column has three consecutive same-colored cells, and every
/// row and column meets its exact Black count.
pub proof fn lemma_sat_all_implies_solves(g: Grid, cs: Seq<Constraint>, a: Seq<bool>)
    requires
        g.wf(),
        covers_grid(cs, g),
        sat_all(cs, a),
        a.len() == g.n(),
    ensures
        solves(g, a),
{
    let w = g.width as int;
    assert forall|p: int| 0 <= p < g.n() implies #[trigger] fixed_ok(g.cells@, a, p) by {
        if g.cells@[p] == Cell::Black {
            let k = choose|k: int| 0 <= k < cs.len() && is_fixed(cs[k], p, true);
            assert(sat_constraint(cs[k], a));
        } else if g.cells@[p] == Cell::White {
            let k = choose|k: int| 0 <= k < cs.len() && is_fixed(cs[k], p, false);
            assert(sat_constraint(cs[k], a));
        }
    }
    assert forall|i: int, j: int|
        0 <= i < g.height && 0 <= j && j + 2 < g.width implies #[trigger] row_window_ok(
        a,
        i,
        j,
        w,
    ) by {
        assert(has_row_run(cs, i, j, w));
        let k = choose|k: int| 0 <= k < cs.len() && is_row_run(cs[k], i, j, w);
        assert(sat_constraint(cs[k], a));
    }
    assert forall|i: int, j: int|
        0 <= i && i + 2 < g.height && 0 <= j < g.width implies #[trigger] col_window_ok(
        a,
        i,
        j,
        w,
    ) by {
        assert(has_col_run(cs, i, j, w));
        let k = choose|k: int| 0 <= k < cs.len() && is_col_run(cs[k], i, j, w);
        assert(sat_constraint(cs[k], a));
    }
    assert forall|i: int| 0 <= i < g.height implies #[trigger] row_true_count(a, i, w, w)
        == g.row_targets@[i] by {
        assert(has_row_count(cs, g, i));
        let k = choose|k: int| 0 <= k < cs.len() && is_row_count(cs[k], g, i);
        assert(sat_constraint(cs[k], a));
        match cs[k] {
            Constraint::ExactCount(cells, _t) => {
                lemma_count_row_shape(a, cells@, i, w);
            },
            _ => {
                assert(false);
            },
        }
    }
    assert forall|j: int| 0 <= j < g.width implies #[trigger] col_true_count(
        a,
        j,
        w,
        g.height as int,
    ) == g.col_targets@[j] by {
        assert(has_col_count(cs, g, j));
        let k = choose|k: int| 0 <= k < cs.len() && is_col_count(cs[k], g, j);
        assert(sat_constraint(cs[k], a));
        match cs[k] {
            Constraint::ExactCount(cells, _t) => {
                lemma_count_col_shape(a, cells@, j, w);
            },
            _ => {
                assert(false);
            },
        }
    }
}

/// Conversely, a solution of the grid satisfies every constraint that the
/// puzzle rules derive from the grid.
pub proof fn lemma_solves_implies_sat_all(g: Grid, cs: Seq<Constraint>, b: Seq<bool>)
    requires
        g.wf(),
        only_grid(cs, g),
        solves(g, b),
    ensures
        sat_all(cs, b),
{
    let w = g.width as int;
    assert forall|k: int| 0 <= k < cs.len() implies sat_constraint(#[trigger] cs[k], b) by {
        let c = cs[k];
        assert(from_grid(g, c));
        if exists|p: int| 0 <= p < g.n() && g.cells@[p] == Cell::Black && is_fixed(c, p, true) {
            let p = choose|p: int|
                0 <= p < g.n() && g.cells@[p] == Cell::Black && is_fixed(c, p, true);
            assert(fixed_ok(g.cells@, b, p));
        } else if exists|p: int|
            0 <= p < g.n() && g.cells@[p] == Cell::White && is_fixed(c, p, false) {
            let p = choose|p: int|
                0 <= p < g.n() && g.cells@[p] == Cell::White && is_fixed(c, p, false);
            assert(fixed_ok(g.cells@, b, p));
        } else if exists|i: int, j: int|
            0 <= i < g.height && 0 <= j && j + 2 < g.width && is_row_run(c, i, j, w) {
            let (i, j) = choose|i: int, j: int|
                0 <= i < g.height && 0 <= j && j + 2 < g.width && is_row_run(c, i, j, w);
            assert(row_window_ok(b, i, j, w));
        } else if exists|i: int, j: int|
            0 <= i && i + 2 < g.height && 0 <= j < g.width && is_col_run(c, i, j, w) {
            let (i, j) = choose|i: int, j: int|
                0 <= i && i + 2 < g.height && 0 <= j < g.width && is_col_run(c, i, j, w);
            assert(col_window_ok(b, i, j, w));
        } else if exists|i: int| 0 <= i < g.height && is_row_count(c, g, i) {
            let i = choose|i: int| 0 <= i < g.height && is_row_count(c, g, i);
            assert(row_true_count(b, i, w, w) == g.row_targets@[i]);
            match c {
                Constraint::ExactCount(cells, _t) => {
                    lemma_count_row_shape(b, cells@, i, w);
                },
                _ => {
                    assert(false);
                },
            }
        } else {
            let j = choose|j: int| 0 <= j < g.width && is_col_count(c, g, j);
            assert(col_true_count(b, j, w, g.height as int) == g.col_targets@[j]);
            match c {
                Constraint::ExactCount(cells, _t) => {
                    lemma_count_col_shape(b, cells@, j, w);
                },
                _ => {
                    assert(false);
                },
            }
        }
    }
}

/// Solves the puzzle: builds the constraint set of `g` and searches for a
/// satisfying assignment.  On success the assignment is a solution of `g`;
/// `Unsatisfiable` comes back exactly when `g` has no solution.
pub fn solve_grid(g: &Grid) -> (r: Result<Vec<bool>, Unsatisfiable>)
    requires
        g.wf(),
    ensures
        r matches Ok(a) ==> solves(*g, a@),
        r is Err ==> forall|b: Seq<bool>| !solves(*g, b),
{
    let cs = build_constraints(g);
    let n = g.cells.len();
    match solve(n, &cs) {
        Ok(a) => {
            proof {
                lemma_sat_all_implies_solves(*g, cs@, a@);
            }
            Ok(a)
        },
        Err(u) => {
            proof {
                assert forall|b: Seq<bool>| !solves(*g, b) by {
                    if solves(*g, b) {
                        lemma_solves_implies_sat_all(*g, cs@, b);
                        assert(!sat_all(cs@, b));
                    }
                }
            }
            Err(u)
        },
    }
}

/// A grid whose every cell is already fixed determines its only possible
/// solution: the assignment that is true exactly at the Black cells.
pub proof fn lemma_fully_fixed_unique(g: Grid, a: Seq<bool>)
    requires
        g.wf(),
        solves(g, a),
        forall|p: int| 0 <= p < g.n() ==> #[trigger] g.cells@[p] != Cell::Unknown,
    ensures
        a == blacks(g.cells@),
{
    assert forall|p: int| 0 <= p < g.n() implies a[p] == blacks(g.cells@)[p] by {
        assert(fixed_ok(g.cells@, a, p));
    }
    assert(a =~= blacks(g.cells@));
}

/// Maps a boolean assignment back to cell colors, in row-major order:
/// true becomes Black, false becomes White.
pub fn project(a: &Vec<bool>) -> (cells: Vec<Cell>)
    ensures
        cells@.len() == a@.len(),
        forall|p: int|
            0 <= p < a@.len() ==> #[trigger] cells@[p] == (if a@[p] {
                Cell::Black
            } else {
                Cell::White
            }),
{
    let m = a.len();
    let mut cells: Vec<Cell> = Vec::new();
    let mut p: usize = 0;
    while p < m
        invariant
            m == a@.len(),
            0 <= p <= m,
            cells@.len() == p,
            forall|q: int|
                0 <= q < p ==> #[trigger] cells@[q] == (if a@[q] {
                    Cell::Black
                } else {
                    Cell::White
                }),
        decreases m - p,
    {
        if a[p] {
            cells.push(Cell::Black);
        } else {
            cells.push(Cell::White);
        }
        p = p + 1;
    }
    cells
}

} // verus!

