//! Untyped lambda calculus: a parser for textual terms and a normal-order
//! reducer with capture-avoiding substitution.
//!
//! `parse` turns a line of text into an `Expression`, `normalize` brings an
//! expression to its beta-normal form, and `evaluate` does both and reports
//! the two in one line. The modules `round_trip`, `capture`, `fixed_point` and
//! `beta` hold what is proved of them: that the text of a parsed expression
//! parses back to it, that substitution captures nothing, that normal forms
//! are fixed points of the normalizer, and that the normalizer makes beta
//! steps only.

pub mod beta;
pub mod capture;
pub mod display;
pub mod evaluate;
pub mod expression;
pub mod fixed_point;
pub mod normalize;
pub mod parser;
pub mod round_trip;
pub mod substitution;
pub mod text;
pub mod variable;
pub mod variable_set;

pub use evaluate::{evaluate, EvaluationError};
pub use expression::Expression;
pub use normalize::{kickoff, normalize, normalize_within, ReductionOverflow, Step};
pub use parser::{parse, parse_classified, ParseError};
pub use text::{classify, scan, Classified};
pub use substitution::{alpha, free, substitute};
pub use variable::Variable;
pub use variable_set::VariableSet;
