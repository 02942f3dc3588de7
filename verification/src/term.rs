//! The operands that a filter expression hands to the filtering core.
use vstd::prelude::*;
use crate::double::Double;
use crate::value_wrapper::ValueWrapper;

verus! {

/// A literal of a filter expression: the right-hand side of a comparison.
#[derive(Debug, PartialEq)]
pub enum ExprTerm {
    String(String),
    Number(Double),
    Bool(bool),
}

/// What an [`ExprTerm`] is, as a mathematical value.
pub enum Literal {
    String(Seq<char>),
    Number(Double),
    Bool(bool),
}

impl View for ExprTerm {
    type V = Literal;

    open spec fn view(&self) -> Literal {
        match self {
            ExprTerm::String(s) => Literal::String(s@),
            ExprTerm::Number(d) => Literal::Number(*d),
            ExprTerm::Bool(b) => Literal::Bool(*b),
        }
    }
}

/// What a filter selects of each element before it compares. Only a name
/// selects anything: it stands for the member of that name.
#[derive(Debug, PartialEq)]
pub enum ValueFilterKey {
    Num(usize),
    String(String),
    All,
}

/// The member name that a key selects, if it selects one.
pub open spec fn member_name(key: Option<ValueFilterKey>) -> Option<Seq<char>> {
    match key {
        Some(ValueFilterKey::String(name)) => Some(name@),
        _ => None,
    }
}

/// What combining two containers gives: a filtered value in a container of
/// its own, with the key it was selected by if any, or a constant.
#[derive(Debug)]
pub enum TermContext {
    Constants(ExprTerm),
    Json(Option<ValueFilterKey>, ValueWrapper),
}

} // verus!
