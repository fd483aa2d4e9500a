use lambda_terms::{Abstraction, Application, Expression, ExpressionParser, ParseError, Variable};

fn named(n: &str) -> Variable {
    Variable(n.to_string(), None)
}

fn var(n: &str) -> Expression {
    Expression::Var(named(n))
}

fn abs(n: &str, body: Expression) -> Expression {
    Expression::Abs(Abstraction(named(n), Box::new(body)))
}

fn app(f: Expression, a: Expression) -> Expression {
    Expression::App(Application(Box::new(f), Box::new(a)))
}

fn sorted_names(vs: Vec<Variable>) -> Vec<String> {
    let mut names: Vec<String> = vs.into_iter().map(|v| v.0).collect();
    names.sort();
    names
}

fn names(ns: &[&str]) -> Vec<String> {
    let mut v: Vec<String> = ns.iter().map(|n| n.to_string()).collect();
    v.sort();
    v
}

#[test]
fn free_variables() {
    let parser = ExpressionParser::new();

    assert_eq!(names(&["x"]), sorted_names(parser.parse(r"x").unwrap().free_variables()));
    assert_eq!(names(&[]), sorted_names(parser.parse(r"λx.x").unwrap().free_variables()));
    assert_eq!(
        names(&["f", "x"]),
        sorted_names(parser.parse(r"f x").unwrap().free_variables())
    );
    assert_eq!(
        names(&["x", "y"]),
        sorted_names(
            parser
                .parse(r"(λx.(x y)) (λy.(x y))")
                .unwrap()
                .free_variables()
        )
    );
}

#[test]
fn variable() {
    assert!(ExpressionParser::new().parse(r"x").is_ok());
}

#[test]
fn abstraction() {
    assert!(ExpressionParser::new().parse(r"\x.x").is_ok());
    assert!(ExpressionParser::new().parse(r"\x. x").is_ok());
    assert!(ExpressionParser::new().parse(r"\x.(x)").is_ok());
    assert!(ExpressionParser::new().parse(r"\x. (x)").is_ok());
}

#[test]
fn application() {
    assert!(ExpressionParser::new().parse(r"x x").is_ok());
    assert!(ExpressionParser::new().parse(r"(x y)").is_ok());
    assert!(ExpressionParser::new().parse(r"(\x.x y)").is_ok());
}

#[test]
fn parse_builds_the_expected_terms() {
    let parser = ExpressionParser::new();
    assert_eq!(Ok(abs("x", app(var("x"), var("y")))), parser.parse("λx.(x y)"));
    assert_eq!(Ok(abs("x", app(var("x"), var("y")))), parser.parse(r"(\x.x y)"));
    assert_eq!(Ok(app(app(var("a"), var("b")), var("c"))), parser.parse("a b c"));
    assert_eq!(Ok(abs("x", abs("y", var("x")))), parser.parse("λx y.x"));
    assert_eq!(
        Ok(app(var("f"), abs("x", app(var("x"), var("x"))))),
        parser.parse(" f  λx.x x ")
    );
    assert_eq!(
        Ok(Expression::Var(Variable("x".to_string(), Some("T".to_string())))),
        parser.parse("x:T")
    );
}

#[test]
fn parse_rejects_malformed_text() {
    let parser = ExpressionParser::new();
    assert_eq!(Err(ParseError), parser.parse(""));
    assert_eq!(Err(ParseError), parser.parse("()"));
    assert_eq!(Err(ParseError), parser.parse("(x"));
    assert_eq!(Err(ParseError), parser.parse("x)"));
    assert_eq!(Err(ParseError), parser.parse("λ.x"));
    assert_eq!(Err(ParseError), parser.parse("λx x"));
    assert_eq!(Err(ParseError), parser.parse("*wtf)"));
}

#[test]
fn display_is_fully_parenthesised() {
    assert_eq!("(λx.(f x))", abs("x", app(var("f"), var("x"))).to_string());
    assert_eq!("x:T", Variable("x".to_string(), Some("T".to_string())).to_string());
    let annotated = Expression::Abs(Abstraction(
        Variable("x".to_string(), Some("N".to_string())),
        Box::new(var("x")),
    ));
    assert_eq!("(λx:N.x)", annotated.to_string());
}

#[test]
fn display_then_parse_round_trips() {
    let parser = ExpressionParser::new();
    let terms = vec![
        var("x"),
        abs("x", app(var("f"), var("x"))),
        app(app(abs("x", abs("y", app(var("x"), var("y")))), var("a")), var("b")),
        abs("y", app(abs("x", abs("y", var("x"))), var("y'"))),
        Expression::Abs(Abstraction(
            Variable("n".to_string(), Some("Nat".to_string())),
            Box::new(app(var("n"), var("n"))),
        )),
    ];
    for t in terms {
        assert_eq!(Ok(t.clone()), parser.parse(&t.to_string()));
    }
}

#[test]
fn resolve() {
    let one = abs("f", abs("x", app(var("f"), var("x"))));
    let env = vec![(named("n"), one.clone())];

    assert_eq!(var("q"), var("q").resolve(&env));
    assert_eq!(one, var("n").resolve(&env));
}

#[test]
fn replace() {
    assert_eq!(var("b"), var("a").replace(&named("a"), &named("b")));
    assert_eq!(
        app(var("b"), var("b")),
        app(var("a"), var("a")).replace(&named("a"), &named("b"))
    );
    assert_eq!(
        abs("b", var("b")),
        abs("a", var("a")).replace(&named("a"), &named("b"))
    );
}

#[test]
fn variables_include_binders() {
    let e = app(abs("x", app(var("x"), var("y"))), var("z"));
    assert_eq!(names(&["x", "y", "z"]), sorted_names(e.variables()));
}

#[test]
fn free_variables_shrink_under_binding() {
    let body = app(app(var("x"), var("y")), var("z"));
    assert_eq!(names(&["x", "y", "z"]), sorted_names(body.free_variables()));
    assert_eq!(names(&["x", "z"]), sorted_names(abs("y", body).free_variables()));
}

#[test]
fn variables_compare_by_name() {
    assert_eq!(
        Variable("x".to_string(), Some("T".to_string())),
        Variable("x".to_string(), None)
    );
    assert_ne!(named("x"), named("y"));
}

#[test]
fn resolve_leaves_bound_variables_alone() {
    let env = vec![(named("x"), var("a")), (named("y"), var("b"))];
    let e = app(abs("x", app(var("x"), var("y"))), var("x"));
    let expected = app(abs("x", app(var("x"), var("b"))), var("a"));
    assert_eq!(expected, e.resolve(&env));
}

#[test]
fn resolve_takes_first_definition() {
    let env = vec![(named("x"), var("a")), (named("x"), var("b"))];
    assert_eq!(var("a"), var("x").resolve(&env));
}

#[test]
fn build_abs_curries_identifiers() {
    let e = Expression::build_abs(1, vec![named("x"), named("y")], Some(var("x")));
    assert_eq!(abs("x", abs("y", var("x"))), e);
}

#[test]
fn build_abs_adds_anonymous_abstractions() {
    let e = Expression::build_abs(3, vec![named("x")], Some(var("x")));
    assert_eq!(abs("", abs("", abs("x", var("x")))), e);
    let e = Expression::build_abs(2, vec![], None);
    assert_eq!(abs("", abs("", var(""))), e);
    let e = Expression::build_abs(0, vec![], Some(var("q")));
    assert_eq!(var("q"), e);
}
