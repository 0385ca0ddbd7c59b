use binairo::digits::parse;
use binairo::grid::{Cell, Grid, GridError};
use binairo::solution::project;

#[test]
fn zero_height_rejected() {
    let r = Grid::new(0, 3, vec![], vec![], vec![0, 0, 0]);
    assert!(matches!(r, Err(GridError::InvalidGeometry)));
}

#[test]
fn zero_width_rejected() {
    let r = Grid::new(2, 0, vec![], vec![0, 0], vec![]);
    assert!(matches!(r, Err(GridError::InvalidGeometry)));
}

#[test]
fn cell_count_mismatch_rejected() {
    let r = Grid::new(2, 2, vec![Cell::Unknown; 3], vec![1, 1], vec![1, 1]);
    assert!(matches!(r, Err(GridError::InvalidGeometry)));
}

#[test]
fn target_exceeding_width_rejected() {
    let r = Grid::new(1, 2, vec![Cell::Unknown; 2], vec![3], vec![1, 1]);
    assert!(matches!(r, Err(GridError::InvalidGeometry)));
}

#[test]
fn target_exceeding_height_rejected() {
    let r = Grid::new(2, 1, vec![Cell::Unknown; 2], vec![1, 1], vec![3]);
    assert!(matches!(r, Err(GridError::InvalidGeometry)));
}

#[test]
fn fixed_blacks_beyond_row_target_rejected() {
    let r = Grid::new(1, 2, vec![Cell::Black, Cell::Black], vec![1], vec![1, 1]);
    assert!(matches!(r, Err(GridError::InvalidGeometry)));
}

#[test]
fn fixed_blacks_beyond_col_target_rejected() {
    let r = Grid::new(2, 1, vec![Cell::Black, Cell::Black], vec![1, 1], vec![1]);
    assert!(matches!(r, Err(GridError::InvalidGeometry)));
}

#[test]
fn accessors_read_back_construction() {
    let g = Grid::new(
        2,
        3,
        vec![
            Cell::Black,
            Cell::Unknown,
            Cell::White,
            Cell::Unknown,
            Cell::Unknown,
            Cell::Unknown,
        ],
        vec![2, 1],
        vec![1, 1, 1],
    )
    .unwrap();
    assert_eq!(g.dims(), (2, 3));
    assert_eq!(g.cell(0, 0), Cell::Black);
    assert_eq!(g.cell(0, 1), Cell::Unknown);
    assert_eq!(g.cell(0, 2), Cell::White);
    assert_eq!(g.cell(1, 0), Cell::Unknown);
    assert_eq!(g.row_target(0), 2);
    assert_eq!(g.row_target(1), 1);
    assert_eq!(g.col_target(2), 1);
}

#[test]
fn from_remaining_adds_fixed_blacks() {
    // one Black already fixed in row 0 / column 0: the externally supplied
    // counts say how many Blacks are still to be placed.
    let g = Grid::from_remaining(
        2,
        2,
        vec![Cell::Black, Cell::Unknown, Cell::Unknown, Cell::Unknown],
        vec![0, 1],
        vec![0, 1],
    )
    .unwrap();
    assert_eq!(g.row_target(0), 1);
    assert_eq!(g.row_target(1), 1);
    assert_eq!(g.col_target(0), 1);
    assert_eq!(g.col_target(1), 1);
}

#[test]
fn from_remaining_total_beyond_width_rejected() {
    let r = Grid::from_remaining(1, 2, vec![Cell::Black, Cell::Unknown], vec![2], vec![0, 0]);
    assert!(matches!(r, Err(GridError::InvalidGeometry)));
}

#[test]
fn parse_reads_decimal_digits() {
    assert_eq!(parse(b"123"), 123);
    assert_eq!(parse(b"7"), 7);
    assert_eq!(parse(b"007"), 7);
}

#[test]
fn parse_of_zero_and_empty() {
    assert_eq!(parse(b"0"), 0);
    assert_eq!(parse(b""), 0);
}

#[test]
fn project_maps_true_to_black() {
    let cells = project(&vec![true, false, false, true]);
    assert_eq!(cells, vec![Cell::Black, Cell::White, Cell::White, Cell::Black]);
}

#[test]
fn project_of_empty_assignment() {
    let cells = project(&vec![]);
    assert_eq!(cells.len(), 0);
}
