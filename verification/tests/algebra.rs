use circuit_solver::algebra::Operation;
use circuit_solver::algebra::Operation::{Divide, Negate, Sum, Text, Value, Variable};

fn var(label: &str) -> Operation {
    Variable(label.to_string(), 0)
}

fn some(op: Operation) -> Option<Box<Operation>> {
    Some(Box::new(op))
}

#[test]
fn literals_render_as_decimal_numbers() {
    assert_eq!(Value(0).equation_repr(), "0");
    assert_eq!(Value(7).equation_repr(), "7");
    assert_eq!(Value(32).equation_repr(), "32");
    assert_eq!(Value(-1).equation_repr(), "-1");
    assert_eq!(Value(1205).equation_repr(), "1205");
    assert_eq!(Value(i64::MAX).equation_repr(), "9223372036854775807");
    assert_eq!(Value(i64::MIN).equation_repr(), "-9223372036854775808");
}

#[test]
fn variables_and_text_render_as_they_are() {
    assert_eq!(Variable("R1".to_string(), 100).equation_repr(), "R1");
    assert_eq!(Text("TODO".to_string()).equation_repr(), "TODO");
    assert_eq!(Text(String::new()).equation_repr(), "");
}

#[test]
fn sums_join_their_terms() {
    assert_eq!(Sum(vec![]).equation_repr(), "");
    assert_eq!(Sum(vec![var("a")]).equation_repr(), "a");
    assert_eq!(
        Sum(vec![var("a"), Value(2), var("c")]).equation_repr(),
        "a + 2 + c"
    );
    assert_eq!(
        Sum(vec![Sum(vec![var("a"), var("b")]), var("c")]).equation_repr(),
        "a + b + c"
    );
}

#[test]
fn negation_and_division() {
    assert_eq!(Negate(some(var("x"))).equation_repr(), "-x");
    assert_eq!(Negate(some(Negate(some(var("x"))))).equation_repr(), "x");
    assert_eq!(
        Negate(some(Negate(some(Negate(some(var("x"))))))).equation_repr(),
        "-x"
    );
    assert_eq!(Divide(some(Value(1)), some(var("R2"))).equation_repr(), "1/R2");
    assert_eq!(
        Negate(some(Divide(some(Value(1)), some(var("R2"))))).equation_repr(),
        "-1/R2"
    );
}

#[test]
fn holes_render_as_a_marker() {
    assert_eq!(Negate(None).equation_repr(), "-_");
    assert_eq!(Divide(None, None).equation_repr(), "_/_");
    assert_eq!(Divide(some(Value(1)), None).equation_repr(), "1/_");
    assert_eq!(Divide(None, some(var("R"))).equation_repr(), "_/R");
    assert_eq!(Negate(some(Negate(None))).equation_repr(), "--_");
}

#[test]
fn rendering_is_repeatable() {
    let op = Sum(vec![
        Divide(some(Value(1)), some(var("R2"))),
        Negate(some(var("x"))),
        Value(-4),
    ]);
    let first = op.equation_repr();
    assert_eq!(first, "1/R2 + -x + -4");
    assert_eq!(op.equation_repr(), first);
    assert_eq!(op.clone().equation_repr(), first);
}

#[test]
fn text_is_appended_to_what_is_there() {
    let mut out = String::from("y = ");
    Sum(vec![var("a"), var("b")]).push_text(&mut out);
    assert_eq!(out, "y = a + b");
}

#[test]
fn equality_goes_by_the_text() {
    let nested = Sum(vec![Sum(vec![var("a"), var("b")]), var("c")]);
    let flat = Sum(vec![var("a"), var("b"), var("c")]);
    assert!(nested == flat);
    assert!(Negate(some(Negate(some(var("x"))))) == var("x"));
    assert!(Value(1) == Text("1".to_string()));
    assert!(Value(1) != Value(2));
    assert!(Variable("R1".to_string(), 5) == Variable("R1".to_string(), 7));
}
