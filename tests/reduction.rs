use lambda_terms::{Abstraction, Application, Expression, ReductionBudgetExceeded, Strategy, Variable};

fn named(n: &str) -> Variable {
    Variable(n.to_string(), None)
}

fn var(n: &str) -> Expression {
    Expression::Var(named(n))
}

fn abs(n: &str, body: Expression) -> Expression {
    Expression::Abs(Abstraction(named(n), Box::new(body)))
}

fn app(f: Expression, a: Expression) -> Expression {
    Expression::App(Application(Box::new(f), Box::new(a)))
}

fn all_strategies() -> Vec<Strategy> {
    vec![
        Strategy::Applicative(false),
        Strategy::Applicative(true),
        Strategy::CallByValue,
        Strategy::CallByName,
        Strategy::Normal(false),
        Strategy::Normal(true),
        Strategy::HeadSpine(false),
        Strategy::HeadSpine(true),
    ]
}

#[test]
fn normalize() {
    let strategy = Strategy::Applicative(false);

    assert_eq!(Ok(var("a")), app(abs("x", var("x")), var("a")).normalize(&strategy));

    assert_eq!(
        Ok(app(var("a"), var("a"))),
        app(abs("x", app(abs("x", app(var("x"), var("x"))), var("a"))), var("b"))
            .normalize(&strategy)
    );
    assert_eq!(
        Ok(app(var("a"), var("b"))),
        app(abs("y", app(var("a"), var("y"))), var("b")).normalize(&strategy)
    );
    assert_eq!(
        Ok(app(var("b"), var("a"))),
        app(app(abs("x", abs("y", app(var("x"), var("y")))), var("b")), var("a"))
            .normalize(&strategy)
    );
    assert_eq!(
        Ok(app(var("b"), var("b"))),
        app(app(abs("x", abs("y", app(var("x"), var("y")))), var("b")), var("b"))
            .normalize(&strategy)
    );

    assert_eq!(
        Ok(abs("a", var("a"))),
        app(abs("x", var("x")), abs("a", var("a"))).normalize(&strategy)
    );
    assert_eq!(
        Ok(abs("x", var("a"))),
        app(abs("f", abs("x", app(var("f"), var("a")))), abs("x", var("x")))
            .normalize(&strategy)
    );
}

#[test]
fn normalize_capture_avoid() {
    let strategy = Strategy::Applicative(false);

    let expected = abs("y", abs("y'", var("y")));
    let actual = abs("y", app(abs("x", abs("y", var("x"))), var("y")));
    assert_eq!(Ok(expected), actual.normalize(&strategy));

    let expected = abs(
        "f",
        abs(
            "x",
            app(var("f"), abs("x'", app(app(var("f"), var("x")), var("x'")))),
        ),
    );
    let succ = abs("n", abs("f", abs("x", app(var("f"), app(var("n"), app(var("f"), var("x")))))));
    let actual = app(succ.clone(), abs("f", abs("x", app(var("f"), var("x")))));
    assert_eq!(Ok(expected), actual.normalize(&strategy));

    let expected = abs("x'", var("x"));
    let actual = app(abs("f", abs("x", app(var("f"), var("a")))), abs("a", var("x")))
        .normalize(&strategy);
    assert_eq!(Ok(expected), actual);

    let expected = abs(
        "f",
        abs(
            "x",
            app(
                var("f"),
                abs("x''", app(app(var("f"), var("x")), abs("x'", var("x'")))),
            ),
        ),
    );
    let actual = app(succ.clone(), app(succ, abs("f", abs("x", var("x")))));
    assert_eq!(Ok(expected), actual.normalize(&strategy));
}

#[test]
fn normalize_eta() {
    let strategy = Strategy::Applicative(true);

    assert_eq!(Ok(var("f")), abs("x", app(var("f"), var("x"))).normalize(&strategy));
    assert_eq!(
        Ok(abs("x", app(var("x"), var("x")))),
        abs("x", app(var("x"), var("x"))).normalize(&strategy)
    );
}

#[test]
fn identity_applied_under_every_strategy() {
    for s in all_strategies() {
        assert_eq!(Ok(var("a")), app(abs("x", var("x")), var("a")).normalize(&s));
    }
}

#[test]
fn curried_application() {
    let e = app(
        app(abs("x", abs("y", app(var("x"), var("y")))), var("a")),
        var("b"),
    );
    assert_eq!(Ok(app(var("a"), var("b"))), e.normalize(&Strategy::Applicative(false)));
}

#[test]
fn inner_binder_is_renamed() {
    let e = abs("y", app(abs("x", abs("y", var("x"))), var("y")));
    assert_eq!(
        Ok(abs("y", abs("y'", var("y")))),
        e.normalize(&Strategy::Applicative(false))
    );
    assert_eq!(
        Ok(abs("y", abs("y'", var("y")))),
        e.normalize(&Strategy::Normal(false))
    );
}

#[test]
fn eta_reduction_follows_the_flag() {
    let e = abs("x", app(var("f"), var("x")));
    for s in [Strategy::Applicative(true), Strategy::Normal(true), Strategy::HeadSpine(true)] {
        assert_eq!(Ok(var("f")), e.normalize(&s));
    }
    for s in [
        Strategy::Applicative(false),
        Strategy::Normal(false),
        Strategy::HeadSpine(false),
        Strategy::CallByName,
        Strategy::CallByValue,
    ] {
        assert_eq!(Ok(e.clone()), e.normalize(&s));
    }
}

#[test]
fn eta_needs_the_binder_not_free() {
    let e = abs("x", app(var("x"), var("x")));
    assert_eq!(Ok(e.clone()), e.normalize(&Strategy::Normal(true)));
}

#[test]
fn strategies_agree_on_a_weakly_normalizing_term() {
    let e = app(app(abs("x", abs("y", var("x"))), var("a")), var("b"));
    for s in all_strategies() {
        assert_eq!(Ok(var("a")), e.normalize(&s));
    }
}

#[test]
fn normal_forms_are_left_alone() {
    let e = abs("x", app(app(var("x"), var("y")), abs("z", var("z"))));
    for s in all_strategies() {
        assert_eq!(Ok(e.clone()), e.normalize(&s));
    }
}

#[test]
fn weak_strategies_stay_outside_abstractions() {
    let e = abs("z", app(abs("x", var("x")), var("a")));
    assert_eq!(Ok(e.clone()), e.normalize(&Strategy::CallByName));
    assert_eq!(Ok(e.clone()), e.normalize(&Strategy::CallByValue));
    assert_eq!(Ok(abs("z", var("a"))), e.normalize(&Strategy::Normal(false)));
}

#[test]
fn head_spine_makes_one_step() {
    let e = app(abs("x", app(abs("y", var("y")), var("x"))), var("a"));
    assert_eq!(
        Ok(app(abs("y", var("y")), var("a"))),
        e.normalize(&Strategy::HeadSpine(false))
    );
    assert_eq!(Ok(var("a")), e.normalize(&Strategy::Normal(false)));
}

#[test]
fn call_by_name_leaves_the_argument() {
    let e = app(var("f"), app(abs("x", var("x")), var("a")));
    assert_eq!(Ok(e.clone()), e.normalize(&Strategy::CallByName));
    assert_eq!(
        Ok(app(var("f"), var("a"))),
        e.normalize(&Strategy::CallByValue)
    );
}

#[test]
fn divergent_term_exceeds_the_budget() {
    let w = abs("x", app(var("x"), var("x")));
    let omega = app(w.clone(), w);
    assert_eq!(Err(ReductionBudgetExceeded), omega.normalize(&Strategy::Normal(false)));
    assert_eq!(
        Err(ReductionBudgetExceeded),
        omega.normalize_within(&Strategy::Applicative(false), 50)
    );
}

#[test]
fn budget_bounds_the_depth() {
    assert_eq!(Err(ReductionBudgetExceeded), var("x").normalize_within(&Strategy::CallByName, 0));
    assert_eq!(Ok(var("x")), var("x").normalize_within(&Strategy::CallByName, 1));
}

#[test]
fn substitution_skips_a_variable_that_is_not_free() {
    let t = abs("y", app(var("y"), var("z")));
    assert_eq!(t.clone(), t.substitute(&var("a"), &named("x")));
    assert_eq!(t.clone(), t.substitute(&var("a"), &named("y")));
}

#[test]
fn substitution_renames_past_taken_names() {
    let t = abs("x", app(var("f"), var("x'")));
    let r = t.substitute(&var("x"), &named("f"));
    assert_eq!(abs("x''", app(var("x"), var("x'"))), r);
}

#[test]
fn substitution_does_not_pierce_its_own_binder() {
    let t = abs("x", var("x"));
    assert_eq!(t.clone(), t.substitute(&var("a"), &named("x")));
}

#[test]
fn substitution_keeps_free_variables_of_the_value() {
    let t = abs("y", app(var("x"), var("z")));
    let r = t.substitute(&app(var("y"), var("w")), &named("x"));
    assert_eq!(abs("y'", app(app(var("y"), var("w")), var("z"))), r);
    let mut fv: Vec<String> = r.free_variables().into_iter().map(|v| v.0).collect();
    fv.sort();
    assert_eq!(vec!["w".to_string(), "y".to_string(), "z".to_string()], fv);
}

#[test]
fn full_strategies_leave_no_redex() {
    let e = app(
        abs("f", abs("z", app(var("f"), app(abs("u", var("u")), var("z"))))),
        abs("v", var("v")),
    );
    assert_eq!(Ok(abs("z", var("z"))), e.normalize(&Strategy::Normal(false)));
    assert_eq!(Ok(abs("z", var("z"))), e.normalize(&Strategy::Applicative(false)));
}

#[test]
fn call_by_name_stops_at_weak_head_normal_form() {
    let e = app(abs("x", abs("z", app(var("x"), var("x")))), app(abs("u", var("u")), var("a")));
    assert_eq!(
        Ok(abs("z", app(app(abs("u", var("u")), var("a")), app(abs("u", var("u")), var("a"))))),
        e.normalize(&Strategy::CallByName)
    );
}

#[test]
fn fresh_names_depend_on_the_strategy() {
    let e = app(abs("x", abs("y", var("q"))), app(abs("z", var("c")), var("y")));
    assert_eq!(Ok(abs("y'", var("q"))), e.normalize(&Strategy::CallByName));
    assert_eq!(Ok(abs("y", var("q"))), e.normalize(&Strategy::CallByValue));
}
