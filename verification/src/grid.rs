//! The puzzle grid: cell states, dimensions and per-row/per-column targets.

use vstd::prelude::*;

verus! {

/// The state of one grid cell.  A puzzle starts with a mix of all three;
/// a solution resolves every `Unknown` cell to `White` or `Black`.
#[derive(Clone, Copy, PartialEq, Eq, Structural, Debug)]
pub enum Cell {
    Unknown,
    White,
    Black,
}

/// A grid whose construction-time invariants do not hold: a zero dimension,
/// a mismatched sequence length, a target larger than its row or column, or
/// more Black cells already fixed in a row or column than its target allows.
#[derive(Clone, Copy, PartialEq, Eq, Structural, Debug)]
pub enum GridError {
    InvalidGeometry,
}

/// The row-major index of the cell in row `i`, column `j`, of a grid
/// `w` cells wide.
pub open spec fn pos(i: int, j: int, w: int) -> int {
    i * w + j
}

/// The cells of `cells` mapped to `true` exactly where they are Black.
pub open spec fn blacks(cells: Seq<Cell>) -> Seq<bool> {
    Seq::new(cells.len(), |k: int| cells[k] == Cell::Black)
}

/// How many of the first `upto` entries of row `i` are true in `a`.
pub open spec fn row_true_count(a: Seq<bool>, i: int, w: int, upto: int) -> int
    decreases upto,
{
    if upto <= 0 {
        0
    } else {
        row_true_count(a, i, w, upto - 1) + if a[pos(i, upto - 1, w)] {
            1int
        } else {
            0int
        }
    }
}

/// How many of the first `upto` entries of column `j` are true in `a`.
pub open spec fn col_true_count(a: Seq<bool>, j: int, w: int, upto: int) -> int
    decreases upto,
{
    if upto <= 0 {
        0
    } else {
        col_true_count(a, j, w, upto - 1) + if a[pos(upto - 1, j, w)] {
            1int
        } else {
            0int
        }
    }
}

/// The construction-time invariant of a grid: positive dimensions, sequences
/// of matching length, every target within its row or column, and no row or
/// column whose already-fixed Black cells outnumber its target.
pub open spec fn valid_grid(
    h: int,
    w: int,
    cells: Seq<Cell>,
    rt: Seq<usize>,
    ct: Seq<usize>,
) -> bool {
    &&& h > 0
    &&& w > 0
    &&& cells.len() == h * w
    &&& rt.len() == h
    &&& ct.len() == w
    &&& forall|i: int| 0 <= i < h ==> #[trigger] rt[i] <= w
    &&& forall|j: int| 0 <= j < w ==> #[trigger] ct[j] <= h
    &&& forall|i: int| 0 <= i < h ==> #[trigger] row_true_count(blacks(cells), i, w, w) <= rt[i]
    &&& forall|j: int| 0 <= j < w ==> #[trigger] col_true_count(blacks(cells), j, w, h) <= ct[j]
}

/// A Binairo puzzle: a `height x width` grid of cell states in row-major
/// order, and the exact number of Black cells required in every row and
/// every column.  Read-only after construction.
pub struct Grid {
    pub height: usize,
    pub width: usize,
    pub cells: Vec<Cell>,
    pub row_targets: Vec<usize>,
    pub col_targets: Vec<usize>,
}

impl Grid {
    /// The number of cells.
    pub open spec fn n(self) -> int {
        self.height * self.width
    }

    pub open spec fn wf(self) -> bool {
        valid_grid(
            self.height as int,
            self.width as int,
            self.cells@,
            self.row_targets@,
            self.col_targets@,
        )
    }

    /// Builds a grid whose targets are the total Black counts required,
    /// rejecting any input that breaks the construction-time invariant.
    pub fn new(
        height: usize,
        width: usize,
        cells: Vec<Cell>,
        row_targets: Vec<usize>,
        col_targets: Vec<usize>,
    ) -> (r: Result<Grid, GridError>)
        ensures
            r is Ok <==> valid_grid(
                height as int,
                width as int,
                cells@,
                row_targets@,
                col_targets@,
            ),
            r matches Ok(g) ==> {
                &&& g.wf()
                &&& g.height == height
                &&& g.width == width
                &&& g.cells@ == cells@
                &&& g.row_targets@ == row_targets@
                &&& g.col_targets@ == col_targets@
            },
            r matches Err(e) ==> e == GridError::InvalidGeometry,
    {
        if height == 0 || width == 0 {
            return Err(GridError::InvalidGeometry);
        }
        let len = cells.len();
        let n = match height.checked_mul(width) {
            Some(n) => n,
            None => {
                // cells.len() == height * width is impossible: the product
                // exceeds usize::MAX while a length cannot.
                return Err(GridError::InvalidGeometry);
            },
        };
        if len != n || row_targets.len() != height || col_targets.len() != width {
            return Err(GridError::InvalidGeometry);
        }
        let mut i: usize = 0;
        while i < height
            invariant
                width > 0,
                height > 0,
                cells@.len() == height * width,
                row_targets@.len() == height,
                0 <= i <= height,
                forall|ii: int| 0 <= ii < i ==> #[trigger] row_targets@[ii] <= width,
                forall|ii: int|
                    0 <= ii < i ==> #[trigger] row_true_count(
                        blacks(cells@),
                        ii,
                        width as int,
                        width as int,
                    ) <= row_targets@[ii],
            decreases height - i,
        {
            if row_targets[i] > width {
                return Err(GridError::InvalidGeometry);
            }
            let c = count_row_blacks(&cells, i, height, width);
            if c > row_targets[i] {
                return Err(GridError::InvalidGeometry);
            }
            i = i + 1;
        }
        let mut j: usize = 0;
        while j < width
            invariant
                width > 0,
                height > 0,
                cells@.len() == height * width,
                col_targets@.len() == width,
                0 <= j <= width,
                forall|jj: int| 0 <= jj < j ==> #[trigger] col_targets@[jj] <= height,
                forall|jj: int|
                    0 <= jj < j ==> #[trigger] col_true_count(
                        blacks(cells@),
                        jj,
                        width as int,
                        height as int,
                    ) <= col_targets@[jj],
            decreases width - j,
        {
            if col_targets[j] > height {
                return Err(GridError::InvalidGeometry);
            }
            let c = count_col_blacks(&cells, j, height, width);
            if c > col_targets[j] {
                return Err(GridError::InvalidGeometry);
            }
            j = j + 1;
        }
        Ok(Grid { height, width, cells, row_targets, col_targets })
    }

    /// Builds a grid from targets that count only the Black cells still to
    /// be placed: each total target is the given remaining count plus the
    /// number of Black cells already fixed in that row or column.
    pub fn from_remaining(
        height: usize,
        width: usize,
        cells: Vec<Cell>,
        row_remaining: Vec<usize>,
        col_remaining: Vec<usize>,
    ) -> (r: Result<Grid, GridError>)
        ensures
            r is Ok <==> {
                &&& height > 0
                &&& width > 0
                &&& cells@.len() == height * width
                &&& row_remaining@.len() == height
                &&& col_remaining@.len() == width
                &&& forall|i: int|
                    0 <= i < height ==> #[trigger] row_remaining@[i] + row_true_count(
                        blacks(cells@),
                        i,
                        width as int,
                        width as int,
                    ) <= width
                &&& forall|j: int|
                    0 <= j < width ==> #[trigger] col_remaining@[j] + col_true_count(
                        blacks(cells@),
                        j,
                        width as int,
                        height as int,
                    ) <= height
            },
            r matches Ok(g) ==> {
                &&& g.wf()
                &&& g.height == height
                &&& g.width == width
                &&& g.cells@ == cells@
                &&& g.row_targets@.len() == height
                &&& g.col_targets@.len() == width
                &&& forall|i: int|
                    0 <= i < height ==> #[trigger] g.row_targets@[i] == row_remaining@[i]
                        + row_true_count(blacks(cells@), i, width as int, width as int)
                &&& forall|j: int|
                    0 <= j < width ==> #[trigger] g.col_targets@[j] == col_remaining@[j]
                        + col_true_count(blacks(cells@), j, width as int, height as int)
            },
            r matches Err(e) ==> e == GridError::InvalidGeometry,
    {
        if height == 0 || width == 0 {
            return Err(GridError::InvalidGeometry);
        }
        let len = cells.len();
        let n = match height.checked_mul(width) {
            Some(n) => n,
            None => {
                return Err(GridError::InvalidGeometry);
            },
        };
        if len != n || row_remaining.len() != height || col_remaining.len() != width {
            return Err(GridError::InvalidGeometry);
        }
        let mut row_targets: Vec<usize> = Vec::new();
        let mut i: usize = 0;
        while i < height
            invariant
                width > 0,
                height > 0,
                cells@.len() == height * width,
                row_remaining@.len() == height,
                0 <= i <= height,
                row_targets@.len() == i,
                forall|ii: int|
                    0 <= ii < i ==> #[trigger] row_targets@[ii] == row_remaining@[ii]
                        + row_true_count(blacks(cells@), ii, width as int, width as int),
            decreases height - i,
        {
            let c = count_row_blacks(&cells, i, height, width);
            if row_remaining[i] > width - c {
                // the total target would exceed the row width
                return Err(GridError::InvalidGeometry);
            }
            row_targets.push(row_remaining[i] + c);
            i = i + 1;
        }
        let mut col_targets: Vec<usize> = Vec::new();
        let mut j: usize = 0;
        while j < width
            invariant
                width > 0,
                height > 0,
                cells@.len() == height * width,
                col_remaining@.len() == width,
                0 <= j <= width,
                col_targets@.len() == j,
                forall|jj: int|
                    0 <= jj < j ==> #[trigger] col_targets@[jj] == col_remaining@[jj]
                        + col_true_count(blacks(cells@), jj, width as int, height as int),
            decreases width - j,
        {
            let c = count_col_blacks(&cells, j, height, width);
            if col_remaining[j] > height - c {
                return Err(GridError::InvalidGeometry);
            }
            col_targets.push(col_remaining[j] + c);
            j = j + 1;
        }
        Grid::new(height, width, cells, row_targets, col_targets)
    }

    /// The state of the cell in row `i`, column `j`.
    pub fn cell(&self, i: usize, j: usize) -> (c: Cell)
        requires
            self.wf(),
            i < self.height,
            j < self.width,
        ensures
            c == self.cells@[pos(i as int, j as int, self.width as int)],
    {
        let _n = self.cells.len();
        proof {
            lemma_pos_in_range(i as int, j as int, self.height as int, self.width as int);
        }
        self.cells[i * self.width + j]
    }

    /// The total Black-cell target of row `i`.
    pub fn row_target(&self, i: usize) -> (t: usize)
        requires
            i < self.row_targets@.len(),
        ensures
            t == self.row_targets@[i as int],
    {
        self.row_targets[i]
    }

    /// The total Black-cell target of column `j`.
    pub fn col_target(&self, j: usize) -> (t: usize)
        requires
            j < self.col_targets@.len(),
        ensures
            t == self.col_targets@[j as int],
    {
        self.col_targets[j]
    }

    /// The grid's dimensions, as (height, width).
    pub fn dims(&self) -> (d: (usize, usize))
        ensures
            d.0 == self.height,
            d.1 == self.width,
    {
        (self.height, self.width)
    }
}

pub proof fn lemma_pos_in_range(i: int, j: int, h: int, w: int)
    by (nonlinear_arith)
    requires
        0 <= i < h,
        0 <= j < w,
    ensures
        0 <= pos(i, j, w) < h * w,
{
}

/// Counts the Black cells of row `i`.
fn count_row_blacks(cells: &Vec<Cell>, i: usize, height: usize, width: usize) -> (c: usize)
    requires
        cells@.len() == height * width,
        i < height,
        width > 0,
    ensures
        c == row_true_count(blacks(cells@), i as int, width as int, width as int),
        c <= width,
{
    let n = cells.len();
    let mut c: usize = 0;
    let mut j: usize = 0;
    while j < width
        invariant
            n == cells@.len(),
            cells@.len() == height * width,
            i < height,
            0 <= j <= width,
            c <= j,
            c == row_true_count(blacks(cells@), i as int, width as int, j as int),
        decreases width - j,
    {
        proof {
            lemma_pos_in_range(i as int, j as int, height as int, width as int);
        }
        if cells[i * width + j] == Cell::Black {
            c = c + 1;
        }
        j = j + 1;
    }
    c
}

/// Counts the Black cells of column `j`.
fn count_col_blacks(cells: &Vec<Cell>, j: usize, height: usize, width: usize) -> (c: usize)
    requires
        cells@.len() == height * width,
        j < width,
        height > 0,
    ensures
        c == col_true_count(blacks(cells@), j as int, width as int, height as int),
        c <= height,
{
    let n = cells.len();
    let mut c: usize = 0;
    let mut i: usize = 0;
    while i < height
        invariant
            n == cells@.len(),
            cells@.len() == height * width,
            j < width,
            0 <= i <= height,
            c <= i,
            c == col_true_count(blacks(cells@), j as int, width as int, i as int),
        decreases height - i,
    {
        proof {
            lemma_pos_in_range(i as int, j as int, height as int, width as int);
        }
        if cells[i * width + j] == Cell::Black {
            c = c + 1;
        }
        i = i + 1;
    }
    c
}

} // verus!
