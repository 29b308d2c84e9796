//! Row-by-row crochet instructions for a surface of constant curvature.
//!
//! A pattern is a sequence of rows. Each row has a stitch count, and the
//! difference between two consecutive counts is spread over the row as
//! evenly as exact arithmetic allows. Every row is then written out as a
//! compact line of text in which plain stitches are run-length encoded.

pub mod decimal;
pub mod stitch;
pub mod distribution;
pub mod line;
pub mod report;

pub use line::LineInstruction;
pub use report::{delta_stitches, LineInstructions, NegativeStitchCount};
pub use stitch::Stitch;
