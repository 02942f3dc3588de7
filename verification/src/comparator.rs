//! Comparison operators, and the capability by which a filter compares one
//! scalar of a document with one literal.
use vstd::prelude::*;
use crate::double::Double;
use crate::text::{string_before, text_before};

verus! {

/// A comparison operator.
#[derive(Clone, Copy, Debug, PartialEq, Eq)]
pub enum CmpType {
    Eq,
    Ne,
    Gt,
    Ge,
    Lt,
    Le,
}

/// Three typed comparisons, each of a value of the document (first) with a
/// literal (second). The spec functions say what the comparisons decide.
pub trait PrivCmp {
    /// What `cmp_bool` decides.
    spec fn holds_bool(&self, v1: bool, v2: bool) -> bool;

    /// What `cmp_f64` decides.
    spec fn holds_double(&self, v1: Double, v2: Double) -> bool;

    /// What `cmp_string` decides.
    spec fn holds_string(&self, v1: Seq<char>, v2: Seq<char>) -> bool;

    fn cmp_bool(&self, v1: &bool, v2: &bool) -> (r: bool)
        ensures
            r == self.holds_bool(*v1, *v2),
    ;

    fn cmp_f64(&self, v1: &Double, v2: &Double) -> (r: bool)
        ensures
            r == self.holds_double(*v1, *v2),
    ;

    fn cmp_string(&self, v1: &String, v2: &String) -> (r: bool)
        ensures
            r == self.holds_string(v1@, v2@),
    ;
}

/// An operator compares by itself: booleans with `false` before `true`,
/// doubles as IEEE 754 orders them, strings lexicographically by code point.
impl PrivCmp for CmpType {
    open spec fn holds_bool(&self, v1: bool, v2: bool) -> bool {
        match self {
            CmpType::Eq => v1 == v2,
            CmpType::Ne => v1 != v2,
            CmpType::Gt => v1 && !v2,
            CmpType::Ge => v1 || !v2,
            CmpType::Lt => !v1 && v2,
            CmpType::Le => !v1 || v2,
        }
    }

    open spec fn holds_double(&self, v1: Double, v2: Double) -> bool {
        match self {
            CmpType::Eq => v1.same(v2),
            CmpType::Ne => !v1.same(v2),
            CmpType::Gt => v2.below(v1),
            CmpType::Ge => v2.at_most(v1),
            CmpType::Lt => v1.below(v2),
            CmpType::Le => v1.at_most(v2),
        }
    }

    open spec fn holds_string(&self, v1: Seq<char>, v2: Seq<char>) -> bool {
        match self {
            CmpType::Eq => v1 == v2,
            CmpType::Ne => v1 != v2,
            CmpType::Gt => text_before(v2, v1),
            CmpType::Ge => !text_before(v1, v2),
            CmpType::Lt => text_before(v1, v2),
            CmpType::Le => !text_before(v2, v1),
        }
    }

    fn cmp_bool(&self, v1: &bool, v2: &bool) -> (r: bool) {
        match self {
            CmpType::Eq => *v1 == *v2,
            CmpType::Ne => *v1 != *v2,
            CmpType::Gt => *v1 && !*v2,
            CmpType::Ge => *v1 || !*v2,
            CmpType::Lt => !*v1 && *v2,
            CmpType::Le => !*v1 || *v2,
        }
    }

    fn cmp_f64(&self, v1: &Double, v2: &Double) -> (r: bool) {
        match self {
            CmpType::Eq => v1.equals(v2),
            CmpType::Ne => v1.differs(v2),
            CmpType::Gt => v1.greater(v2),
            CmpType::Ge => v1.greater_or_equal(v2),
            CmpType::Lt => v1.less(v2),
            CmpType::Le => v1.less_or_equal(v2),
        }
    }

    fn cmp_string(&self, v1: &String, v2: &String) -> (r: bool) {
        match self {
            CmpType::Eq => *v1 == *v2,
            CmpType::Ne => !(*v1 == *v2),
            CmpType::Gt => string_before(v2, v1),
            CmpType::Ge => !string_before(v1, v2),
            CmpType::Lt => string_before(v1, v2),
            CmpType::Le => !string_before(v2, v1),
        }
    }
}

} // verus!
