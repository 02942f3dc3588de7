//! What filtering a value by one predicate keeps.
//!
//! A predicate is a literal, a comparison and, optionally, the name of a
//! member to compare in place of the element itself.
use vstd::prelude::*;
use crate::comparator::PrivCmp;
use crate::term::Literal;
use crate::value::{Tree, member};

verus! {

/// Whether a value passes a comparison with a literal. A boolean is compared
/// with a boolean literal, a number that has a double with a number literal,
/// a string with a string literal; for every other pairing the answer is
/// `default`.
pub open spec fn compare<F: PrivCmp>(v: Tree, et: Literal, f: F, default: bool) -> bool {
    match v {
        Tree::Bool(v1) => match et {
            Literal::Bool(v2) => f.holds_bool(v1, v2),
            _ => default,
        },
        Tree::Number(_, Some(v1)) => match et {
            Literal::Number(v2) => f.holds_double(v1, v2),
            _ => default,
        },
        Tree::String(v1) => match et {
            Literal::String(v2) => f.holds_string(v1, v2),
            _ => default,
        },
        _ => default,
    }
}

/// Whether an element is an object whose member `name` passes the comparison.
pub open spec fn member_passes<F: PrivCmp>(v: Tree, name: Seq<char>, et: Literal, f: F) -> bool {
    match v {
        Tree::Object(members) => match member(members, name) {
            Some(vv) => compare(vv, et, f, false),
            None => false,
        },
        _ => false,
    }
}

/// The predicate by which the elements of an array are kept: by the member
/// `name` where one is given, else by the element itself.
pub open spec fn keeps<F: PrivCmp>(name: Option<Seq<char>>, et: Literal, f: F) -> spec_fn(
    Tree,
) -> bool {
    match name {
        Some(n) => |v: Tree| member_passes(v, n, et, f),
        None => |v: Tree| compare(v, et, f, false),
    }
}

/// What a filter makes of a value. Of an array it keeps, in order, the
/// elements that [`keeps`] accepts. Any other value is compared itself,
/// whether or not a name is given: it stays if it passes, and null takes its
/// place if it does not.
pub open spec fn take_tree<F: PrivCmp>(t: Tree, name: Option<Seq<char>>, et: Literal, f: F) -> Tree {
    match t {
        Tree::Array(items) => Tree::Array(items.filter(keeps(name, et, f))),
        _ => if compare(t, et, f, false) {
            t
        } else {
            Tree::Null
        },
    }
}

} // verus!
