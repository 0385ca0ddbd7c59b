use binairo::constraint::build_constraints;
use binairo::grid::{Cell, Grid};
use binairo::solution::solve_grid;
use binairo::solver::{solve, Unsatisfiable};

/// Checks at run time that `a` is a solution of the described puzzle:
/// total, fixed cells kept, no three consecutive same-colored cells, and
/// every row and column at its exact Black target.
fn check_solution(
    h: usize,
    w: usize,
    cells: &[Cell],
    row_targets: &[usize],
    col_targets: &[usize],
    a: &[bool],
) {
    assert_eq!(a.len(), h * w);
    for p in 0..h * w {
        match cells[p] {
            Cell::Black => assert!(a[p]),
            Cell::White => assert!(!a[p]),
            Cell::Unknown => {}
        }
    }
    for i in 0..h {
        let c = (0..w).filter(|&j| a[i * w + j]).count();
        assert_eq!(c, row_targets[i]);
    }
    for j in 0..w {
        let c = (0..h).filter(|&i| a[i * w + j]).count();
        assert_eq!(c, col_targets[j]);
    }
    for i in 0..h {
        for j in 0..w.saturating_sub(2) {
            let (x, y, z) = (a[i * w + j], a[i * w + j + 1], a[i * w + j + 2]);
            assert!(!(x == y && y == z));
        }
    }
    for j in 0..w {
        for i in 0..h.saturating_sub(2) {
            let (x, y, z) = (a[i * w + j], a[(i + 1) * w + j], a[(i + 2) * w + j]);
            assert!(!(x == y && y == z));
        }
    }
}

#[test]
fn fully_fixed_single_black_cell() {
    let g = Grid::new(1, 1, vec![Cell::Black], vec![1], vec![1]).unwrap();
    let a = solve_grid(&g).unwrap();
    assert_eq!(a, vec![true]);
}

#[test]
fn fully_fixed_single_white_cell() {
    let g = Grid::new(1, 1, vec![Cell::White], vec![0], vec![0]).unwrap();
    let a = solve_grid(&g).unwrap();
    assert_eq!(a, vec![false]);
}

#[test]
fn row_target_forcing_triple_is_unsatisfiable() {
    // 1x4, all cells Unknown: a row target of 4 forces four Blacks in a
    // row, which the no-triple-run rule forbids.
    let g = Grid::new(1, 4, vec![Cell::Unknown; 4], vec![4], vec![1, 1, 1, 1]).unwrap();
    let r = solve_grid(&g);
    assert_eq!(r, Err(Unsatisfiable));
}

#[test]
fn three_cell_row_cannot_be_all_black() {
    let g = Grid::new(1, 3, vec![Cell::Unknown; 3], vec![3], vec![1, 1, 1]).unwrap();
    assert_eq!(solve_grid(&g), Err(Unsatisfiable));
}

#[test]
fn two_by_two_all_black_is_satisfiable() {
    // only two consecutive cells per row and column: no triple can form.
    let g = Grid::new(2, 2, vec![Cell::Unknown; 4], vec![2, 2], vec![2, 2]).unwrap();
    let a = solve_grid(&g).unwrap();
    assert_eq!(a, vec![true, true, true, true]);
}

#[test]
fn four_by_four_all_unknown() {
    let cells = vec![Cell::Unknown; 16];
    let row_targets = vec![2, 2, 2, 2];
    let col_targets = vec![2, 2, 2, 2];
    let g = Grid::new(4, 4, cells.clone(), row_targets.clone(), col_targets.clone()).unwrap();
    let a = solve_grid(&g).unwrap();
    check_solution(4, 4, &cells, &row_targets, &col_targets, &a);
}

#[test]
fn four_by_four_with_fixed_cells() {
    let mut cells = vec![Cell::Unknown; 16];
    cells[0] = Cell::Black;
    cells[5] = Cell::White;
    let row_targets = vec![2, 2, 2, 2];
    let col_targets = vec![2, 2, 2, 2];
    let g = Grid::new(4, 4, cells.clone(), row_targets.clone(), col_targets.clone()).unwrap();
    let a = solve_grid(&g).unwrap();
    check_solution(4, 4, &cells, &row_targets, &col_targets, &a);
}

#[test]
fn resolving_the_same_grid_solves_it_again() {
    let cells = vec![Cell::Unknown; 16];
    let row_targets = vec![2, 2, 2, 2];
    let col_targets = vec![2, 2, 2, 2];
    let g = Grid::new(4, 4, cells.clone(), row_targets.clone(), col_targets.clone()).unwrap();
    let a1 = solve_grid(&g).unwrap();
    let a2 = solve_grid(&g).unwrap();
    check_solution(4, 4, &cells, &row_targets, &col_targets, &a1);
    check_solution(4, 4, &cells, &row_targets, &col_targets, &a2);
}

#[test]
fn constraint_order_does_not_matter() {
    let cells = vec![Cell::Unknown; 16];
    let row_targets = vec![2, 2, 2, 2];
    let col_targets = vec![2, 2, 2, 2];
    let g = Grid::new(4, 4, cells.clone(), row_targets.clone(), col_targets.clone()).unwrap();
    let mut cs = build_constraints(&g);
    cs.reverse();
    let a = solve(16, &cs).unwrap();
    check_solution(4, 4, &cells, &row_targets, &col_targets, &a);
}

#[test]
fn empty_constraint_set_is_satisfiable() {
    let a = solve(3, &vec![]).unwrap();
    assert_eq!(a.len(), 3);
}

#[test]
fn constraint_set_has_the_expected_size() {
    // 2 fixed cells, 4*2 horizontal + 2*4 vertical windows, 4 + 4 counts.
    let mut cells = vec![Cell::Unknown; 16];
    cells[0] = Cell::Black;
    cells[5] = Cell::White;
    let g = Grid::new(4, 4, cells, vec![2, 2, 2, 2], vec![2, 2, 2, 2]).unwrap();
    let cs = build_constraints(&g);
    assert_eq!(cs.len(), 2 + 16 + 8);
}

#[test]
fn short_dimensions_have_no_run_constraints() {
    // a 2x2 grid has no window of three cells in any direction.
    let g = Grid::new(2, 2, vec![Cell::Unknown; 4], vec![1, 1], vec![1, 1]).unwrap();
    let cs = build_constraints(&g);
    assert_eq!(cs.len(), 2 + 2);
}
