//! The value-filtering core of a path-query evaluator for JSON documents.
//!
//! A [`ValueWrapper`] carries one candidate subtree. `take_with` applies one
//! predicate (a literal, a comparison and, optionally, a member name) and
//! keeps what passes; `intersect`, `except` and `union` combine two filtered
//! containers as sets, telling elements apart by their canonical keys; `cmp`
//! picks the combination that an operator stands for.
//!
//! Every function is verified against a contract over mathematical models:
//! [`value::Tree`] for a value, [`term::Literal`] for a literal, and the
//! functions of [`filter`], [`key_encoder`] and [`combine`] for what the
//! operations compute. [`laws`] holds what follows for all inputs.
pub mod combine;
pub mod comparator;
pub mod double;
pub mod filter;
pub mod key_encoder;
pub mod laws;
pub mod number;
pub mod ordered_map;
pub mod term;
pub mod text;
pub mod value;
pub mod value_wrapper;

pub use comparator::{CmpType, PrivCmp};
pub use double::Double;
pub use number::Number;
pub use term::{ExprTerm, TermContext, ValueFilterKey};
pub use value::Value;
pub use value_wrapper::ValueWrapper;
