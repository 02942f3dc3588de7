use json_filter::comparator::CmpType;
use json_filter::double::Double;
use json_filter::number::Number;
use json_filter::term::{ExprTerm, ValueFilterKey};
use json_filter::value::Value;
use json_filter::value_wrapper::ValueWrapper;

fn whole(n: u64) -> Value {
    Value::Number(Number::PosInt(n))
}

fn fraction(x: f64, shown: &str) -> Value {
    Value::Number(Number::Float(Double::from_bits(x.to_bits()), shown.to_string()))
}

fn text(s: &str) -> Value {
    Value::String(s.to_string())
}

fn object(members: Vec<(&str, Value)>) -> Value {
    Value::Object(members.into_iter().map(|(k, v)| (k.to_string(), v)).collect())
}

fn number(x: f64) -> ExprTerm {
    ExprTerm::Number(Double::from_bits(x.to_bits()))
}

fn name(s: &str) -> Option<ValueFilterKey> {
    Some(ValueFilterKey::String(s.to_string()))
}

#[test]
fn member_filter_keeps_objects_whose_member_passes() {
    let people = Value::Array(vec![
        object(vec![("age", whole(30))]),
        object(vec![("age", text("x"))]),
        object(vec![("name", text("y"))]),
    ]);
    let mut w = ValueWrapper::new(people, false);
    let r = w.take_with(&name("age"), &number(25.0), CmpType::Gt);
    assert_eq!(*r.get_val(), Value::Array(vec![object(vec![("age", whole(30))])]));
    assert!(!r.is_leaves());
}

#[test]
fn member_filter_drops_elements_that_are_no_objects() {
    let mixed = Value::Array(vec![
        whole(30),
        Value::Array(vec![object(vec![("age", whole(30))])]),
        object(vec![("age", whole(40)), ("name", text("a"))]),
        Value::Null,
        object(vec![("age", whole(20))]),
        object(vec![("name", text("b")), ("age", whole(26))]),
    ]);
    let mut w = ValueWrapper::new(mixed, true);
    let r = w.take_with(&name("age"), &number(25.0), CmpType::Gt);
    assert_eq!(
        *r.get_val(),
        Value::Array(vec![
            object(vec![("age", whole(40)), ("name", text("a"))]),
            object(vec![("name", text("b")), ("age", whole(26))]),
        ])
    );
    assert!(!r.is_leaves());
}

#[test]
fn member_filter_without_a_match_gives_an_empty_array() {
    let people = Value::Array(vec![object(vec![("age", whole(3))])]);
    let mut w = ValueWrapper::new(people, false);
    let r = w.take_with(&name("age"), &number(25.0), CmpType::Gt);
    assert_eq!(*r.get_val(), Value::Array(vec![]));
}

#[test]
fn member_filter_compares_strings_and_booleans_too() {
    let items = Value::Array(vec![
        object(vec![("tag", text("a")), ("on", Value::Bool(true))]),
        object(vec![("tag", text("b")), ("on", Value::Bool(false))]),
        object(vec![("tag", text("c")), ("on", Value::Bool(true))]),
    ]);
    let mut w = ValueWrapper::new(items.clone(), false);
    let r = w.take_with(&name("tag"), &ExprTerm::String("b".to_string()), CmpType::Ge);
    assert_eq!(
        *r.get_val(),
        Value::Array(vec![
            object(vec![("tag", text("b")), ("on", Value::Bool(false))]),
            object(vec![("tag", text("c")), ("on", Value::Bool(true))]),
        ])
    );
    let mut w = ValueWrapper::new(items, false);
    let r = w.take_with(&name("on"), &ExprTerm::Bool(true), CmpType::Eq);
    assert_eq!(
        *r.get_val(),
        Value::Array(vec![
            object(vec![("tag", text("a")), ("on", Value::Bool(true))]),
            object(vec![("tag", text("c")), ("on", Value::Bool(true))]),
        ])
    );
}

#[test]
fn direct_filter_keeps_elements_that_pass() {
    let items = Value::Array(vec![whole(1), whole(5), text("7"), whole(9), fraction(4.5, "4.5"), Value::Null]);
    let mut w = ValueWrapper::new(items, false);
    let r = w.take_with(&None, &number(4.0), CmpType::Gt);
    assert_eq!(*r.get_val(), Value::Array(vec![whole(5), whole(9), fraction(4.5, "4.5")]));
    assert!(!r.is_leaves());
}

#[test]
fn a_key_that_names_no_member_filters_directly() {
    let items = Value::Array(vec![whole(1), whole(5)]);
    let mut w = ValueWrapper::new(items.clone(), false);
    let r = w.take_with(&Some(ValueFilterKey::All), &number(4.0), CmpType::Lt);
    assert_eq!(*r.get_val(), Value::Array(vec![whole(1)]));
    let mut w = ValueWrapper::new(items, false);
    let r = w.take_with(&Some(ValueFilterKey::Num(0)), &number(4.0), CmpType::Ge);
    assert_eq!(*r.get_val(), Value::Array(vec![whole(5)]));
}

#[test]
fn a_scalar_that_passes_is_handed_on() {
    let mut w = ValueWrapper::new(whole(30), true);
    let r = w.take_with(&None, &number(25.0), CmpType::Gt);
    assert_eq!(*r.get_val(), whole(30));
    assert!(!r.is_leaves());
}

#[test]
fn a_scalar_that_fails_gives_null() {
    let mut w = ValueWrapper::new(whole(20), true);
    let r = w.take_with(&None, &number(25.0), CmpType::Gt);
    assert_eq!(*r.get_val(), Value::Null);
    assert!(!r.is_leaves());
}

#[test]
fn a_scalar_is_compared_itself_even_where_a_name_is_given() {
    let mut w = ValueWrapper::new(Value::Bool(true), false);
    let r = w.take_with(&name("a"), &ExprTerm::Bool(true), CmpType::Eq);
    assert_eq!(*r.get_val(), Value::Bool(true));
    let mut w = ValueWrapper::new(Value::Bool(true), false);
    let r = w.take_with(&name("a"), &ExprTerm::Bool(true), CmpType::Ne);
    assert_eq!(*r.get_val(), Value::Null);
}

#[test]
fn an_object_never_passes_by_itself() {
    for op in [CmpType::Eq, CmpType::Ne, CmpType::Gt, CmpType::Ge, CmpType::Lt, CmpType::Le] {
        let mut w = ValueWrapper::new(object(vec![("age", whole(30))]), false);
        let r = w.take_with(&name("age"), &number(25.0), op);
        assert_eq!(*r.get_val(), Value::Null);
        let mut w = ValueWrapper::new(Value::Null, false);
        let r = w.take_with(&None, &number(25.0), op);
        assert_eq!(*r.get_val(), Value::Null);
    }
}

#[test]
fn a_literal_of_another_kind_never_matches() {
    let items = Value::Array(vec![whole(1), text("1"), Value::Bool(true), Value::Null]);
    for op in [CmpType::Eq, CmpType::Ne, CmpType::Gt, CmpType::Ge, CmpType::Lt, CmpType::Le] {
        let mut w = ValueWrapper::new(Value::Array(vec![whole(1), Value::Bool(true)]), false);
        let r = w.take_with(&None, &ExprTerm::String("1".to_string()), op);
        assert_eq!(*r.get_val(), Value::Array(vec![]));
    }
    let mut w = ValueWrapper::new(items, false);
    let r = w.take_with(&None, &ExprTerm::String("1".to_string()), CmpType::Eq);
    assert_eq!(*r.get_val(), Value::Array(vec![text("1")]));
}

#[test]
fn not_equal_holds_of_values_of_the_literal_kind_only() {
    let items = Value::Array(vec![whole(1), whole(2), text("2"), Value::Null]);
    let mut w = ValueWrapper::new(items, false);
    let r = w.take_with(&None, &number(2.0), CmpType::Ne);
    assert_eq!(*r.get_val(), Value::Array(vec![whole(1)]));
}

#[test]
fn every_operator_on_numbers() {
    let run = |op: CmpType| {
        let mut w = ValueWrapper::new(Value::Array(vec![whole(1), whole(2), whole(3)]), false);
        w.take_with(&None, &number(2.0), op).clone_val()
    };
    assert_eq!(run(CmpType::Eq), Value::Array(vec![whole(2)]));
    assert_eq!(run(CmpType::Ne), Value::Array(vec![whole(1), whole(3)]));
    assert_eq!(run(CmpType::Gt), Value::Array(vec![whole(3)]));
    assert_eq!(run(CmpType::Ge), Value::Array(vec![whole(2), whole(3)]));
    assert_eq!(run(CmpType::Lt), Value::Array(vec![whole(1)]));
    assert_eq!(run(CmpType::Le), Value::Array(vec![whole(1), whole(2)]));
}

#[test]
fn negative_and_fractional_numbers_are_compared_by_value() {
    let items = Value::Array(vec![
        Value::Number(Number::NegInt(-3)),
        fraction(-2.5, "-2.5"),
        whole(0),
        fraction(0.25, "0.25"),
    ]);
    let mut w = ValueWrapper::new(items, false);
    let r = w.take_with(&None, &number(-2.5), CmpType::Le);
    assert_eq!(
        *r.get_val(),
        Value::Array(vec![Value::Number(Number::NegInt(-3)), fraction(-2.5, "-2.5")])
    );
}

#[test]
fn the_first_member_of_a_name_is_the_one_compared() {
    let twice = Value::Object(vec![
        ("age".to_string(), whole(30)),
        ("age".to_string(), whole(1)),
    ]);
    let mut w = ValueWrapper::new(Value::Array(vec![twice.clone()]), false);
    let r = w.take_with(&name("age"), &number(25.0), CmpType::Gt);
    assert_eq!(*r.get_val(), Value::Array(vec![twice]));
}

#[test]
fn filtering_consumes_the_container() {
    let mut w = ValueWrapper::new(Value::Array(vec![whole(1), whole(5)]), true);
    let _ = w.take_with(&None, &number(4.0), CmpType::Gt);
    assert_eq!(*w.get_val(), Value::Null);
    assert!(w.is_leaves());
    let mut w = ValueWrapper::new(whole(5), false);
    let _ = w.take_with(&name("a"), &number(4.0), CmpType::Gt);
    assert_eq!(*w.get_val(), Value::Null);
    assert!(!w.is_leaves());
}
