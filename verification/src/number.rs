//! JSON numbers.
//!
//! A number is an integer that fits `u64` or `i64`, or a finite double. The
//! filters read two things of a number: its canonical text, by which set
//! operations identify it, and its value as a double, by which it is compared
//! with a literal. For an integer both are computed by `serde_json`; a double
//! carries its text, since this library itself holds no floating-point value.
use vstd::prelude::*;
use crate::double::Double;
use crate::text::signed_decimal_text;

verus! {

/// A JSON number.
#[derive(Debug, PartialEq)]
pub enum Number {
    /// A non-negative integer.
    PosInt(u64),
    /// An integer below zero (a value from zero up stands for the same number
    /// as `PosInt` of it).
    NegInt(i64),
    /// A number with a fraction or an exponent: its value, and the text that
    /// `serde_json` displays it with.
    Float(Double, String),
}

/// The bits of the double that `serde_json::Number::as_f64` gives for the
/// integer `i`, where it gives one.
pub uninterp spec fn integer_double_bits(i: int) -> Option<u64>;

/// The text of the `serde_json::Number` that `serde_json::Number::from_i128`
/// makes of `v`: `Display` writes the digits that `itoa` formats, a decimal
/// numeral with a minus sign before it for a negative integer.
#[verifier::external_body]
fn integer_text(v: i128) -> (s: String)
    requires
        i64::MIN <= v <= u64::MAX,
    ensures
        s@ == signed_decimal_text(v as int),
{
    match serde_json::Number::from_i128(v) {
        Some(n) => n.to_string(),
        None => String::new(),
    }
}

/// `serde_json::Number::as_f64` of the number that
/// `serde_json::Number::from_i128` makes of `v`, as bits. The result depends
/// on `v` alone; the contract gives it a name and claims nothing else of it.
#[verifier::external_body]
fn integer_as_double(v: i128) -> (bits: Option<u64>)
    requires
        i64::MIN <= v <= u64::MAX,
    ensures
        bits == integer_double_bits(v as int),
{
    serde_json::Number::from_i128(v).and_then(|n| n.as_f64()).map(|x| x.to_bits())
}

impl Number {
    /// The integer that an integer number stands for.
    pub open spec fn integer(self) -> int
        recommends
            !(self is Float),
    {
        match self {
            Number::PosInt(u) => u as int,
            Number::NegInt(i) => i as int,
            Number::Float(_, _) => 0,
        }
    }

    /// The canonical text of the number.
    pub open spec fn text(self) -> Seq<char> {
        match self {
            Number::Float(_, t) => t@,
            _ => signed_decimal_text(self.integer()),
        }
    }

    /// The value of the number as a double, where it has one.
    pub open spec fn double(self) -> Option<Double> {
        match self {
            Number::Float(d, _) => Some(d),
            _ => match integer_double_bits(self.integer()) {
                Some(bits) => Some(Double { bits }),
                None => None,
            },
        }
    }

    fn exec_integer(&self) -> (v: i128)
        requires
            !(self is Float),
        ensures
            v == self.integer(),
            i64::MIN <= v <= u64::MAX,
    {
        match self {
            Number::PosInt(u) => *u as i128,
            Number::NegInt(i) => *i as i128,
            Number::Float(_, _) => 0,
        }
    }

    /// The canonical text of the number.
    pub fn to_text(&self) -> (s: String)
        ensures
            s@ == self.text(),
    {
        match self {
            Number::Float(_, t) => t.clone(),
            _ => integer_text(self.exec_integer()),
        }
    }

    /// The value of the number as a double.
    pub fn as_double(&self) -> (d: Option<Double>)
        ensures
            d == self.double(),
    {
        match self {
            Number::Float(d, _) => Some(*d),
            _ => match integer_as_double(self.exec_integer()) {
                Some(bits) => Some(Double::from_bits(bits)),
                None => None,
            },
        }
    }
}

impl Clone for Number {
    fn clone(&self) -> (n: Number)
        ensures
            n.text() == self.text(),
            n.double() == self.double(),
    {
        match self {
            Number::PosInt(u) => Number::PosInt(*u),
            Number::NegInt(i) => Number::NegInt(*i),
            Number::Float(d, t) => Number::Float(*d, t.clone()),
        }
    }
}

} // verus!
