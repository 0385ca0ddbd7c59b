//! A verified Binairo (Takuzu) puzzle solver.
//!
//! A puzzle is an `height x width` grid whose cells are Black, White or
//! Unknown, together with an exact target count of Black cells for every row
//! and every column.  A solution colors every cell Black or White so that
//! fixed cells keep their color, no three consecutive cells in a row or
//! column share a color, and every row and column meets its target.
//!
//! The solver is proved sound (a returned assignment satisfies every puzzle
//! rule) and complete (it reports unsatisfiability only when no assignment
//! at all satisfies the rules).

pub mod constraint;
pub mod digits;
pub mod grid;
pub mod solution;
pub mod solver;
