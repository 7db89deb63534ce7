//! Static analysis of regular-expression syntax trees: group numbering,
//! minimum match size, constant-size, look-left and backtracking facts for
//! every node, plus detection of plain literal patterns.

pub mod analyze;
pub mod expr;
pub mod lemmas;

pub use analyze::{analyze, literal_const_size, AnalyzedExpr};
pub use expr::{Error, Expr, LookAround};
