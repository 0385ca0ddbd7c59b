//! Puzzle rules as a canonical set of constraints over one boolean
//! variable per cell (`true` = Black), and the builder that derives the
//! full set from a grid.

use vstd::prelude::*;

use crate::grid::{pos, Cell, Grid, lemma_pos_in_range};

verus! {

/// One puzzle constraint over cell variables, identified by row-major index.
///
/// - `Fixed(p, v)` forces cell `p` to value `v`.
/// - `NoTripleRun(x, y, z)` forbids the three cells from being all true or
///   all false.
/// - `ExactCount(cells, t)` requires exactly `t` of the listed cells to be
///   true.
pub enum Constraint {
    Fixed(usize, bool),
    NoTripleRun(usize, usize, usize),
    ExactCount(Vec<usize>, usize),
}

/// Every cell index mentioned by `c` is below `n`.
pub open spec fn constraint_wf(c: Constraint, n: int) -> bool {
    match c {
        Constraint::Fixed(p, _v) => p < n,
        Constraint::NoTripleRun(x, y, z) => x < n && y < n && z < n,
        Constraint::ExactCount(cells, _t) => forall|k: int|
            #![trigger cells@[k]]
            0 <= k < cells@.len() ==> cells@[k] < n,
    }
}

pub open spec fn wf_all(cs: Seq<Constraint>, n: int) -> bool {
    forall|k: int| 0 <= k < cs.len() ==> constraint_wf(#[trigger] cs[k], n)
}

/// How many of the cells listed in `idxs` are true in `a`.
pub open spec fn count_true_at(a: Seq<bool>, idxs: Seq<usize>) -> int
    decreases idxs.len(),
{
    if idxs.len() == 0 {
        0
    } else {
        count_true_at(a, idxs.drop_last()) + if a[idxs.last() as int] {
            1int
        } else {
            0int
        }
    }
}

/// Assignment `a` satisfies constraint `c`.
pub open spec fn sat_constraint(c: Constraint, a: Seq<bool>) -> bool {
    match c {
        Constraint::Fixed(p, v) => a[p as int] == v,
        Constraint::NoTripleRun(x, y, z) => !(a[x as int] && a[y as int] && a[z as int]) && (a[
            x as int
        ] || a[y as int] || a[z as int]),
        Constraint::ExactCount(cells, t) => count_true_at(a, cells@) == t,
    }
}

/// Assignment `a` satisfies every constraint of the (unordered) set `cs`.
pub open spec fn sat_all(cs: Seq<Constraint>, a: Seq<bool>) -> bool {
    forall|k: int| 0 <= k < cs.len() ==> sat_constraint(#[trigger] cs[k], a)
}

/// `c` fixes cell `p` to value `v`.
pub open spec fn is_fixed(c: Constraint, p: int, v: bool) -> bool {
    c matches Constraint::Fixed(q, u) && q == p && u == v
}

/// `c` is the no-triple-run constraint of the horizontal window starting at
/// row `i`, column `j`.
pub open spec fn is_row_run(c: Constraint, i: int, j: int, w: int) -> bool {
    c matches Constraint::NoTripleRun(x, y, z) && x == pos(i, j, w) && y == pos(i, j + 1, w) && z
        == pos(i, j + 2, w)
}

/// `c` is the no-triple-run constraint of the vertical window starting at
/// row `i`, column `j`.
pub open spec fn is_col_run(c: Constraint, i: int, j: int, w: int) -> bool {
    c matches Constraint::NoTripleRun(x, y, z) && x == pos(i, j, w) && y == pos(i + 1, j, w) && z
        == pos(i + 2, j, w)
}

/// `c` is the exact-count constraint of row `i` of `g`.
pub open spec fn is_row_count(c: Constraint, g: Grid, i: int) -> bool {
    c matches Constraint::ExactCount(cells, t) && cells@.len() == g.width && (forall|jj: int|
        0 <= jj < g.width ==> #[trigger] cells@[jj] == pos(i, jj, g.width as int)) && t
        == g.row_targets@[i]
}

/// `c` is the exact-count constraint of column `j` of `g`.
pub open spec fn is_col_count(c: Constraint, g: Grid, j: int) -> bool {
    c matches Constraint::ExactCount(cells, t) && cells@.len() == g.height && (forall|ii: int|
        0 <= ii < g.height ==> #[trigger] cells@[ii] == pos(ii, j, g.width as int)) && t
        == g.col_targets@[j]
}

/// `c` is one of the constraints that the puzzle rules derive from `g`.
pub open spec fn from_grid(g: Grid, c: Constraint) -> bool {
    ||| exists|p: int| 0 <= p < g.n() && g.cells@[p] == Cell::Black && is_fixed(c, p, true)
    ||| exists|p: int| 0 <= p < g.n() && g.cells@[p] == Cell::White && is_fixed(c, p, false)
    ||| exists|i: int, j: int|
        0 <= i < g.height && 0 <= j && j + 2 < g.width && is_row_run(c, i, j, g.width as int)
    ||| exists|i: int, j: int|
        0 <= i && i + 2 < g.height && 0 <= j < g.width && is_col_run(c, i, j, g.width as int)
    ||| exists|i: int| 0 <= i < g.height && is_row_count(c, g, i)
    ||| exists|j: int| 0 <= j < g.width && is_col_count(c, g, j)
}

/// Every member of `cs` is a constraint of `g`.
pub open spec fn only_grid(cs: Seq<Constraint>, g: Grid) -> bool {
    forall|k: int| 0 <= k < cs.len() ==> from_grid(g, #[trigger] cs[k])
}

pub open spec fn has_fixed(cs: Seq<Constraint>, p: int, v: bool) -> bool {
    exists|k: int| 0 <= k < cs.len() && is_fixed(#[trigger] cs[k], p, v)
}

pub open spec fn has_row_run(cs: Seq<Constraint>, i: int, j: int, w: int) -> bool {
    exists|k: int| 0 <= k < cs.len() && is_row_run(#[trigger] cs[k], i, j, w)
}

pub open spec fn has_col_run(cs: Seq<Constraint>, i: int, j: int, w: int) -> bool {
    exists|k: int| 0 <= k < cs.len() && is_col_run(#[trigger] cs[k], i, j, w)
}

pub open spec fn has_row_count(cs: Seq<Constraint>, g: Grid, i: int) -> bool {
    exists|k: int| 0 <= k < cs.len() && is_row_count(#[trigger] cs[k], g, i)
}

pub open spec fn has_col_count(cs: Seq<Constraint>, g: Grid, j: int) -> bool {
    exists|k: int| 0 <= k < cs.len() && is_col_count(#[trigger] cs[k], g, j)
}

/// The number of pre-colored (non-Unknown) cells among the first `upto`
/// cells.
pub open spec fn fixed_count(cells: Seq<Cell>, upto: int) -> int
    decreases upto,
{
    if upto <= 0 {
        0
    } else {
        fixed_count(cells, upto - 1) + if cells[upto - 1] != Cell::Unknown {
            1int
        } else {
            0int
        }
    }
}

/// The number of three-cell windows of an `h x w` grid, horizontal and
/// vertical together: none at all when a dimension is below three.
pub open spec fn run_count(h: int, w: int) -> int {
    (if w >= 2 {
        h * (w - 2)
    } else {
        0int
    }) + (if h >= 2 {
        (h - 2) * w
    } else {
        0int
    })
}

/// `cs` contains every constraint that the puzzle rules derive from `g`.
pub open spec fn covers_grid(cs: Seq<Constraint>, g: Grid) -> bool {
    &&& forall|p: int|
        #![trigger g.cells@[p]]
        0 <= p < g.n() && g.cells@[p] == Cell::Black ==> has_fixed(cs, p, true)
    &&& forall|p: int|
        #![trigger g.cells@[p]]
        0 <= p < g.n() && g.cells@[p] == Cell::White ==> has_fixed(cs, p, false)
    &&& forall|i: int, j: int|
        0 <= i < g.height && 0 <= j && j + 2 < g.width ==> has_row_run(cs, i, j, g.width as int)
    &&& forall|i: int, j: int|
        0 <= i && i + 2 < g.height && 0 <= j < g.width ==> has_col_run(cs, i, j, g.width as int)
    &&& forall|i: int| 0 <= i < g.height ==> has_row_count(cs, g, i)
    &&& forall|j: int| 0 <= j < g.width ==> has_col_count(cs, g, j)
}

/// `a` keeps `p` unchanged in its first `p.len()` places.
pub open spec fn extends_seq<T>(a: Seq<T>, p: Seq<T>) -> bool {
    p.len() <= a.len() && (forall|k: int|
        #![trigger a[k]]
        #![trigger p[k]]
        0 <= k < p.len() ==> a[k] == p[k])
}

/// A count over cells that a prefix already decides is the same in every
/// extension of the prefix.
pub proof fn lemma_count_true_at_prefix(p: Seq<bool>, b: Seq<bool>, idxs: Seq<usize>)
    requires
        extends_seq(b, p),
        forall|k: int| 0 <= k < idxs.len() ==> #[trigger] idxs[k] < p.len(),
    ensures
        count_true_at(b, idxs) == count_true_at(p, idxs),
    decreases idxs.len(),
{
    if idxs.len() > 0 {
        let d = idxs.drop_last();
        assert(forall|k: int| 0 <= k < d.len() ==> #[trigger] d[k] < p.len());
        lemma_count_true_at_prefix(p, b, d);
        assert(b[idxs.last() as int] == p[idxs.last() as int]);
    }
}

/// A constraint whose cells a prefix already decides holds of an extension
/// of the prefix exactly when it holds of the prefix.
pub proof fn lemma_sat_constraint_prefix(c: Constraint, p: Seq<bool>, b: Seq<bool>)
    requires
        constraint_wf(c, p.len() as int),
        extends_seq(b, p),
    ensures
        sat_constraint(c, b) == sat_constraint(c, p),
{
    match c {
        Constraint::Fixed(q, _v) => {
            assert(b[q as int] == p[q as int]);
        },
        Constraint::NoTripleRun(x, y, z) => {
            assert(b[x as int] == p[x as int]);
            assert(b[y as int] == p[y as int]);
            assert(b[z as int] == p[z as int]);
        },
        Constraint::ExactCount(cells, _t) => {
            lemma_count_true_at_prefix(p, b, cells@);
        },
    }
}

pub proof fn lemma_extends_trans<T>(a: Seq<T>, b: Seq<T>, c: Seq<T>)
    requires
        extends_seq(b, a),
        extends_seq(c, b),
    ensures
        extends_seq(c, a),
{
    assert forall|k: int| 0 <= k < a.len() implies c[k] == a[k] by {
        assert(b[k] == a[k]);
        assert(c[k] == b[k]);
    }
}

/// Membership of each kind of grid constraint survives appending to the set.
pub proof fn lemma_has_monotone(cs1: Seq<Constraint>, cs2: Seq<Constraint>, g: Grid)
    requires
        extends_seq(cs2, cs1),
    ensures
        forall|p: int, v: bool| has_fixed(cs1, p, v) ==> #[trigger] has_fixed(cs2, p, v),
        forall|i: int, j: int, w: int|
            has_row_run(cs1, i, j, w) ==> #[trigger] has_row_run(cs2, i, j, w),
        forall|i: int, j: int, w: int|
            has_col_run(cs1, i, j, w) ==> #[trigger] has_col_run(cs2, i, j, w),
        forall|i: int| has_row_count(cs1, g, i) ==> #[trigger] has_row_count(cs2, g, i),
        forall|j: int| has_col_count(cs1, g, j) ==> #[trigger] has_col_count(cs2, g, j),
{
    assert forall|p: int, v: bool| has_fixed(cs1, p, v) implies has_fixed(cs2, p, v) by {
        let k = choose|k: int| 0 <= k < cs1.len() && is_fixed(cs1[k], p, v);
        assert(is_fixed(cs2[k], p, v));
    }
    assert forall|i: int, j: int, w: int| has_row_run(cs1, i, j, w) implies has_row_run(
        cs2,
        i,
        j,
        w,
    ) by {
        let k = choose|k: int| 0 <= k < cs1.len() && is_row_run(cs1[k], i, j, w);
        assert(is_row_run(cs2[k], i, j, w));
    }
    assert forall|i: int, j: int, w: int| has_col_run(cs1, i, j, w) implies has_col_run(
        cs2,
        i,
        j,
        w,
    ) by {
        let k = choose|k: int| 0 <= k < cs1.len() && is_col_run(cs1[k], i, j, w);
        assert(is_col_run(cs2[k], i, j, w));
    }
    assert forall|i: int| has_row_count(cs1, g, i) implies has_row_count(cs2, g, i) by {
        let k = choose|k: int| 0 <= k < cs1.len() && is_row_count(cs1[k], g, i);
        assert(is_row_count(cs2[k], g, i));
    }
    assert forall|j: int| has_col_count(cs1, g, j) implies has_col_count(cs2, g, j) by {
        let k = choose|k: int| 0 <= k < cs1.len() && is_col_count(cs1[k], g, j);
        assert(is_col_count(cs2[k], g, j));
    }
}

/// Emits one `Fixed` constraint for every Black or White cell of `g`.
fn push_fixed(g: &Grid, cs: &mut Vec<Constraint>)
    requires
        g.wf(),
        wf_all(old(cs)@, g.n()),
        only_grid(old(cs)@, *g),
    ensures
        extends_seq(final(cs)@, old(cs)@),
        wf_all(final(cs)@, g.n()),
        only_grid(final(cs)@, *g),
        final(cs)@.len() == old(cs)@.len() + fixed_count(g.cells@, g.n()),
        forall|p: int|
            #![trigger g.cells@[p]]
            0 <= p < g.n() && g.cells@[p] == Cell::Black ==> has_fixed(final(cs)@, p, true),
        forall|p: int|
            #![trigger g.cells@[p]]
            0 <= p < g.n() && g.cells@[p] == Cell::White ==> has_fixed(final(cs)@, p, false),
{
    let n = g.cells.len();
    let mut p: usize = 0;
    while p < n
        invariant
            g.wf(),
            n == g.cells@.len(),
            0 <= p <= n,
            extends_seq(cs@, old(cs)@),
            wf_all(cs@, g.n()),
            only_grid(cs@, *g),
            cs@.len() == old(cs)@.len() + fixed_count(g.cells@, p as int),
            forall|q: int|
                #![trigger g.cells@[q]]
                0 <= q < p && g.cells@[q] == Cell::Black ==> has_fixed(cs@, q, true),
            forall|q: int|
                #![trigger g.cells@[q]]
                0 <= q < p && g.cells@[q] == Cell::White ==> has_fixed(cs@, q, false),
        decreases n - p,
    {
        let ghost prev = cs@;
        match g.cells[p] {
            Cell::Black => {
                cs.push(Constraint::Fixed(p, true));
                proof {
                    assert(cs@[prev.len() as int] == Constraint::Fixed(p, true));
                    assert(is_fixed(cs@[prev.len() as int], p as int, true));
                    lemma_has_monotone(prev, cs@, *g);
                }
            },
            Cell::White => {
                cs.push(Constraint::Fixed(p, false));
                proof {
                    assert(cs@[prev.len() as int] == Constraint::Fixed(p, false));
                    assert(is_fixed(cs@[prev.len() as int], p as int, false));
                    lemma_has_monotone(prev, cs@, *g);
                }
            },
            Cell::Unknown => {},
        }
        p = p + 1;
    }
}

/// Emits one `NoTripleRun` constraint for every horizontal window of three
/// consecutive cells.
fn push_row_runs(g: &Grid, cs: &mut Vec<Constraint>)
    requires
        g.wf(),
        wf_all(old(cs)@, g.n()),
        only_grid(old(cs)@, *g),
    ensures
        extends_seq(final(cs)@, old(cs)@),
        wf_all(final(cs)@, g.n()),
        only_grid(final(cs)@, *g),
        final(cs)@.len() == old(cs)@.len() + (if g.width >= 2 {
            g.height * (g.width - 2)
        } else {
            0int
        }),
        forall|i: int, j: int|
            0 <= i < g.height && 0 <= j && j + 2 < g.width ==> has_row_run(
                final(cs)@,
                i,
                j,
                g.width as int,
            ),
{
    let n = g.cells.len();
    let height = g.height;
    let width = g.width;
    let mut i: usize = 0;
    while i < height
        invariant
            g.wf(),
            n == g.cells@.len(),
            height == g.height,
            width == g.width,
            0 <= i <= height,
            extends_seq(cs@, old(cs)@),
            wf_all(cs@, g.n()),
            only_grid(cs@, *g),
            cs@.len() == old(cs)@.len() + i * (if width >= 2 {
                width - 2int
            } else {
                0int
            }),
            forall|ii: int, jj: int|
                0 <= ii < i && 0 <= jj && jj + 2 < width ==> has_row_run(
                    cs@,
                    ii,
                    jj,
                    g.width as int,
                ),
        decreases height - i,
    {
        let mut j: usize = 2;
        while j < width
            invariant
                g.wf(),
                n == g.cells@.len(),
                height == g.height,
                width == g.width,
                i < height,
                2 <= j,
                width >= 2 ==> j <= width,
                width <= 2 ==> j == 2,
                extends_seq(cs@, old(cs)@),
                wf_all(cs@, g.n()),
                only_grid(cs@, *g),
                cs@.len() == old(cs)@.len() + i * (if width >= 2 {
                    width - 2int
                } else {
                    0int
                }) + (j - 2),
                forall|ii: int, jj: int|
                    0 <= ii < i && 0 <= jj && jj + 2 < width ==> has_row_run(
                        cs@,
                        ii,
                        jj,
                        g.width as int,
                    ),
                forall|jj: int|
                    0 <= jj && jj + 2 < j ==> has_row_run(cs@, i as int, jj, g.width as int),
            decreases width - j,
        {
            proof {
                lemma_pos_in_range(i as int, j as int, height as int, width as int);
            }
            let base = i * width;
            let ghost prev = cs@;
            cs.push(Constraint::NoTripleRun(base + j - 2, base + j - 1, base + j));
            proof {
                assert(is_row_run(cs@[prev.len() as int], i as int, j - 2, g.width as int));
                lemma_has_monotone(prev, cs@, *g);
            }
            j = j + 1;
        }
        proof {
            let rw: int = if width >= 2 {
                width - 2int
            } else {
                0int
            };
            assert((i + 1) * rw == i * rw + rw) by (nonlinear_arith);
        }
        i = i + 1;
    }
}

/// Emits one `NoTripleRun` constraint for every vertical window of three
/// consecutive cells.
fn push_col_runs(g: &Grid, cs: &mut Vec<Constraint>)
    requires
        g.wf(),
        wf_all(old(cs)@, g.n()),
        only_grid(old(cs)@, *g),
    ensures
        extends_seq(final(cs)@, old(cs)@),
        wf_all(final(cs)@, g.n()),
        only_grid(final(cs)@, *g),
        final(cs)@.len() == old(cs)@.len() + (if g.height >= 2 {
            (g.height - 2) * g.width
        } else {
            0int
        }),
        forall|i: int, j: int|
            0 <= i && i + 2 < g.height && 0 <= j < g.width ==> has_col_run(
                final(cs)@,
                i,
                j,
                g.width as int,
            ),
{
    let n = g.cells.len();
    let height = g.height;
    let width = g.width;
    let mut i: usize = 2;
    while i < height
        invariant
            g.wf(),
            n == g.cells@.len(),
            height == g.height,
            width == g.width,
            2 <= i,
            height >= 2 ==> i <= height,
            height <= 2 ==> i == 2,
            extends_seq(cs@, old(cs)@),
            wf_all(cs@, g.n()),
            only_grid(cs@, *g),
            cs@.len() == old(cs)@.len() + (i - 2) * width,
            forall|ii: int, jj: int|
                0 <= ii && ii + 2 < i && 0 <= jj < width ==> has_col_run(
                    cs@,
                    ii,
                    jj,
                    g.width as int,
                ),
        decreases height - i,
    {
        let mut j: usize = 0;
        while j < width
            invariant
                g.wf(),
                n == g.cells@.len(),
                height == g.height,
                width == g.width,
                2 <= i < height,
                0 <= j <= width,
                extends_seq(cs@, old(cs)@),
                wf_all(cs@, g.n()),
                only_grid(cs@, *g),
                cs@.len() == old(cs)@.len() + (i - 2) * width + j,
                forall|ii: int, jj: int|
                    0 <= ii && ii + 2 < i && 0 <= jj < width ==> has_col_run(
                        cs@,
                        ii,
                        jj,
                        g.width as int,
                    ),
                forall|ii: int, jj: int|
                    ii == i - 2 && 0 <= jj < j ==> has_col_run(cs@, ii, jj, g.width as int),
            decreases width - j,
        {
            proof {
                lemma_pos_in_range(i - 2, j as int, height as int, width as int);
                lemma_pos_in_range(i - 1, j as int, height as int, width as int);
                lemma_pos_in_range(i as int, j as int, height as int, width as int);
            }
            let ghost prev = cs@;
            cs.push(
                Constraint::NoTripleRun((i - 2) * width + j, (i - 1) * width + j, i * width + j),
            );
            proof {
                assert(is_col_run(cs@[prev.len() as int], i - 2, j as int, g.width as int));
                lemma_has_monotone(prev, cs@, *g);
            }
            j = j + 1;
        }
        proof {
            assert((i - 1) * width == (i - 2) * width + width) by (nonlinear_arith);
        }
        i = i + 1;
    }
}

/// Builds the index list of row `i`, in column order.
fn row_cells(i: usize, height: usize, width: usize) -> (idxs: Vec<usize>)
    requires
        i < height,
        height * width <= usize::MAX,
    ensures
        idxs@.len() == width,
        forall|jj: int| 0 <= jj < width ==> #[trigger] idxs@[jj] == pos(i as int, jj, width as int),
{
    let mut idxs: Vec<usize> = Vec::new();
    let mut j: usize = 0;
    while j < width
        invariant
            i < height,
            height * width <= usize::MAX,
            0 <= j <= width,
            idxs@.len() == j,
            forall|jj: int|
                0 <= jj < j ==> #[trigger] idxs@[jj] == pos(i as int, jj, width as int),
        decreases width - j,
    {
        proof {
            lemma_pos_in_range(i as int, j as int, height as int, width as int);
        }
        idxs.push(i * width + j);
        j = j + 1;
    }
    idxs
}

/// Builds the index list of column `j`, in row order.
fn col_cells(j: usize, height: usize, width: usize) -> (idxs: Vec<usize>)
    requires
        j < width,
        height * width <= usize::MAX,
    ensures
        idxs@.len() == height,
        forall|ii: int| 0 <= ii < height ==> #[trigger] idxs@[ii] == pos(ii, j as int, width as int),
{
    let mut idxs: Vec<usize> = Vec::new();
    let mut i: usize = 0;
    while i < height
        invariant
            j < width,
            height * width <= usize::MAX,
            0 <= i <= height,
            idxs@.len() == i,
            forall|ii: int| 0 <= ii < i ==> #[trigger] idxs@[ii] == pos(ii, j as int, width as int),
        decreases height - i,
    {
        proof {
            lemma_pos_in_range(i as int, j as int, height as int, width as int);
        }
        idxs.push(i * width + j);
        i = i + 1;
    }
    idxs
}

/// Emits one `ExactCount` constraint per row, over that row's cells with the
/// row's total Black target.
fn push_row_counts(g: &Grid, cs: &mut Vec<Constraint>)
    requires
        g.wf(),
        wf_all(old(cs)@, g.n()),
        only_grid(old(cs)@, *g),
    ensures
        extends_seq(final(cs)@, old(cs)@),
        wf_all(final(cs)@, g.n()),
        only_grid(final(cs)@, *g),
        final(cs)@.len() == old(cs)@.len() + g.height,
        forall|i: int| 0 <= i < g.height ==> has_row_count(final(cs)@, *g, i),
{
    let n = g.cells.len();
    let height = g.height;
    let width = g.width;
    let mut i: usize = 0;
    while i < height
        invariant
            g.wf(),
            n == g.cells@.len(),
            height == g.height,
            width == g.width,
            0 <= i <= height,
            extends_seq(cs@, old(cs)@),
            wf_all(cs@, g.n()),
            only_grid(cs@, *g),
            cs@.len() == old(cs)@.len() + i,
            forall|ii: int| 0 <= ii < i ==> has_row_count(cs@, *g, ii),
        decreases height - i,
    {
        let idxs = row_cells(i, height, width);
        let ghost prev = cs@;
        cs.push(Constraint::ExactCount(idxs, g.row_targets[i]));
        proof {
            assert forall|jj: int| 0 <= jj < width implies pos(i as int, jj, width as int)
                < g.n() by {
                lemma_pos_in_range(i as int, jj, height as int, width as int);
            }
            assert(is_row_count(cs@[prev.len() as int], *g, i as int));
            assert(constraint_wf(cs@[prev.len() as int], g.n()));
            lemma_has_monotone(prev, cs@, *g);
        }
        i = i + 1;
    }
}

/// Emits one `ExactCount` constraint per column, over that column's cells
/// with the column's total Black target.
fn push_col_counts(g: &Grid, cs: &mut Vec<Constraint>)
    requires
        g.wf(),
        wf_all(old(cs)@, g.n()),
        only_grid(old(cs)@, *g),
    ensures
        extends_seq(final(cs)@, old(cs)@),
        wf_all(final(cs)@, g.n()),
        only_grid(final(cs)@, *g),
        final(cs)@.len() == old(cs)@.len() + g.width,
        forall|j: int| 0 <= j < g.width ==> has_col_count(final(cs)@, *g, j),
{
    let n = g.cells.len();
    let height = g.height;
    let width = g.width;
    let mut j: usize = 0;
    while j < width
        invariant
            g.wf(),
            n == g.cells@.len(),
            height == g.height,
            width == g.width,
            0 <= j <= width,
            extends_seq(cs@, old(cs)@),
            wf_all(cs@, g.n()),
            only_grid(cs@, *g),
            cs@.len() == old(cs)@.len() + j,
            forall|jj: int| 0 <= jj < j ==> has_col_count(cs@, *g, jj),
        decreases width - j,
    {
        let idxs = col_cells(j, height, width);
        let ghost prev = cs@;
        cs.push(Constraint::ExactCount(idxs, g.col_targets[j]));
        proof {
            assert forall|ii: int| 0 <= ii < height implies pos(ii, j as int, width as int)
                < g.n() by {
                lemma_pos_in_range(ii, j as int, height as int, width as int);
            }
            assert(is_col_count(cs@[prev.len() as int], *g, j as int));
            assert(constraint_wf(cs@[prev.len() as int], g.n()));
            lemma_has_monotone(prev, cs@, *g);
        }
        j = j + 1;
    }
}

/// Derives the full constraint set of `g`: one `Fixed` per pre-colored
/// cell, one `NoTripleRun` per window of three consecutive cells in a row
/// or column, and one `ExactCount` per row and per column — and nothing
/// else.  The set is meant to be read as unordered: the contract speaks
/// only of membership and of the total size.
pub fn build_constraints(g: &Grid) -> (cs: Vec<Constraint>)
    requires
        g.wf(),
    ensures
        wf_all(cs@, g.n()),
        only_grid(cs@, *g),
        covers_grid(cs@, *g),
        cs@.len() == fixed_count(g.cells@, g.n()) + run_count(g.height as int, g.width as int)
            + g.height + g.width,
{
    let mut cs: Vec<Constraint> = Vec::new();
    push_fixed(g, &mut cs);
    let ghost cs1 = cs@;
    push_row_runs(g, &mut cs);
    let ghost cs2 = cs@;
    push_col_runs(g, &mut cs);
    let ghost cs3 = cs@;
    push_row_counts(g, &mut cs);
    let ghost cs4 = cs@;
    push_col_counts(g, &mut cs);
    proof {
        lemma_extends_trans(cs3, cs4, cs@);
        lemma_extends_trans(cs2, cs3, cs@);
        lemma_extends_trans(cs1, cs2, cs@);
        lemma_has_monotone(cs1, cs@, *g);
        lemma_has_monotone(cs2, cs@, *g);
        lemma_has_monotone(cs3, cs@, *g);
        lemma_has_monotone(cs4, cs@, *g);
    }
    cs
}

} // verus!
