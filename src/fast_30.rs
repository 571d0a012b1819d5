//! The fast evaluator of the left diagonals of rule 30.
pub mod diagonal;
pub mod flags_options;
pub mod options;
pub mod fast30;
