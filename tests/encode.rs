use lambda_terms::{Abstraction, Application, Expression, ExpressionParser, Variable};

fn named(n: &str) -> Variable {
    Variable(n.to_string(), None)
}

fn var(n: &str) -> Expression {
    Expression::Var(named(n))
}

fn abs(n: &str, body: Expression) -> Expression {
    Expression::Abs(Abstraction(named(n), Box::new(body)))
}

fn app(f: Expression, a: Expression) -> Expression {
    Expression::App(Application(Box::new(f), Box::new(a)))
}

fn t() -> Expression {
    Expression::from_bool(true)
}

fn f() -> Expression {
    Expression::from_bool(false)
}

#[test]
fn true_() {
    assert_eq!(Ok(Some(true)), Expression::from_bool(true).to_bool());
}

#[test]
fn false_() {
    assert_eq!(Ok(Some(false)), Expression::from_bool(false).to_bool());
}

#[test]
fn not() {
    assert_eq!(Ok(Some(false)), Expression::from_bool(true).not().unwrap().to_bool());
}

#[test]
fn or() {
    assert_eq!(Ok(t()), t().or(&t()));
    assert_eq!(Ok(t()), f().or(&t()));
    assert_eq!(Ok(t()), t().or(&f()));
    assert_eq!(Ok(f()), f().or(&f()));
}

#[test]
fn and() {
    assert_eq!(Ok(t()), t().and(&t()));
    assert_eq!(Ok(f()), f().and(&t()));
    assert_eq!(Ok(f()), t().and(&f()));
    assert_eq!(Ok(f()), f().and(&f()));
}

#[test]
fn xor() {
    assert_eq!(Ok(f()), t().xor(&t()));
    assert_eq!(Ok(t()), f().xor(&t()));
    assert_eq!(Ok(t()), t().xor(&f()));
    assert_eq!(Ok(f()), f().xor(&f()));
}

#[test]
fn xor_decodes_to_the_expected_booleans() {
    assert_eq!(Ok(Some(false)), t().xor(&t()).unwrap().to_bool());
    assert_eq!(Ok(Some(true)), f().xor(&t()).unwrap().to_bool());
}

#[test]
fn large_numerals_decode_as_they_are() {
    assert_eq!(Some(5000), Expression::from_u64(5000).as_u64());
}

#[test]
fn u64() {
    assert_eq!(Ok(Some(0)), Expression::from_u64(0).to_u64());
    assert_eq!(Ok(Some(5)), Expression::from_u64(5).to_u64());
}

#[test]
fn zero() {
    assert_eq!(Ok(None), abs("x", var("x")).to_u64());
}

#[test]
fn one() {
    let omega = ExpressionParser::new().parse("λx.x x").unwrap();
    assert_eq!(Ok(Some(1)), app(omega, Expression::from_u64(1)).to_u64());
}

#[test]
fn add() {
    assert_eq!(
        Ok(Expression::from_u64(5)),
        Expression::from_u64(2).plus(&Expression::from_u64(3))
    );
}

#[test]
fn multiply() {
    assert_eq!(
        Ok(Expression::from_u64(6)),
        Expression::from_u64(2).times(&Expression::from_u64(3))
    );
}

#[test]
fn numerals_have_the_canonical_shape() {
    assert_eq!(abs("f", abs("x", var("x"))), Expression::from_u64(0));
    assert_eq!(abs("f", abs("x", app(var("f"), var("x")))), Expression::from_u64(1));
    assert_eq!(
        abs("f", abs("x", app(var("f"), app(var("f"), app(var("f"), var("x")))))),
        Expression::from_u64(3)
    );
}

#[test]
fn booleans_have_the_canonical_shape() {
    assert_eq!(abs("a", abs("b", var("a"))), Expression::from_bool(true));
    assert_eq!(abs("a", abs("b", var("b"))), Expression::from_bool(false));
}

#[test]
fn decoding_ignores_the_names() {
    assert_eq!(Some(2), abs("g", abs("y", app(var("g"), app(var("g"), var("y"))))).as_u64());
    assert_eq!(Some(true), abs("p", abs("q", var("p"))).as_bool());
    assert_eq!(Some(false), abs("p", abs("p", var("p"))).as_bool());
}

#[test]
fn decoding_rejects_other_shapes() {
    assert_eq!(None, abs("a", abs("b", app(var("b"), var("b")))).as_bool());
    assert_eq!(None, abs("a", abs("b", var("c"))).as_bool());
    assert_eq!(None, abs("f", abs("x", app(var("x"), var("x")))).as_u64());
    assert_eq!(None, abs("x", abs("x", app(var("x"), var("x")))).as_u64());
    assert_eq!(None, var("x").as_u64());
}

#[test]
fn arithmetic_round_trips_through_numerals() {
    assert_eq!(
        Ok(Some(4)),
        Expression::from_u64(2).plus(&Expression::from_u64(2)).unwrap().to_u64()
    );
    assert_eq!(
        Ok(Some(0)),
        Expression::from_u64(0).times(&Expression::from_u64(7)).unwrap().to_u64()
    );
}
