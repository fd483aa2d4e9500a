//! Reduction strategies, each bounded by a budget of recursion depth.
use vstd::prelude::*;

use crate::free::{free_vars, has_name};
use crate::subst::subst;
use crate::term::{opt_term, Abstraction, Application, Expression, Ident, Term, Variable};

verus! {

/// A reduction strategy for an [`Expression`].
///
/// The flag of `Applicative`, `Normal` and `HeadSpine` enables η-reduction.
#[derive(Debug, Clone, Copy, PartialEq, Eq, Structural)]
pub enum Strategy {
    /// Innermost, into abstraction bodies: normal form.
    Applicative(bool),
    /// Innermost, not into abstraction bodies: weak normal form.
    CallByValue,
    /// Outermost, not into abstraction bodies: weak head normal form.
    CallByName,
    /// Outermost, into abstraction bodies: normal form.
    Normal(bool),
    /// Abstractions reduced in head position only: head normal form.
    HeadSpine(bool),
}

/// Reduction stopped because its budget ran out.
#[derive(Debug, Clone, Copy, PartialEq, Eq, Structural)]
pub struct ReductionBudgetExceeded;

/// The budget `normalize` reduces with.
pub const DEFAULT_BUDGET: u64 = 2048;

/// Where `λid.body` is an η-redex `λx.(e x)` with `x` not free in `e`, that `e`.
pub open spec fn eta_body(id: Ident, body: Term) -> Option<Term> {
    match body {
        Term::App(f, a) => match *a {
            Term::Var(x) => if x.name == id.name && !free_vars(*f).contains(id.name) {
                Some(*f)
            } else {
                None
            },
            _ => None,
        },
        _ => None,
    }
}

/// Call-by-name: weak head normal form, never inside an abstraction.
/// `None` when `fuel` nested steps do not suffice.
pub open spec fn call_by_name(t: Term, fuel: nat) -> Option<Term>
    decreases fuel,
{
    if fuel == 0 {
        None
    } else {
        match t {
            Term::App(f, a) => match call_by_name(*f, (fuel - 1) as nat) {
                None => None,
                Some(Term::Abs(id, body)) => call_by_name(
                    subst(*body, *a, id.name),
                    (fuel - 1) as nat,
                ),
                Some(g) => Some(Term::App(Box::new(g), a)),
            },
            _ => Some(t),
        }
    }
}

/// Normal order: the head redex by call-by-name, then every subterm.
pub open spec fn normal_order(t: Term, eta: bool, fuel: nat) -> Option<Term>
    decreases fuel,
{
    if fuel == 0 {
        None
    } else {
        let k = (fuel - 1) as nat;
        match t {
            Term::Var(_) => Some(t),
            Term::Abs(id, body) => match eta_body(id, *body) {
                Some(e) if eta => normal_order(e, eta, k),
                _ => match normal_order(*body, eta, k) {
                    Some(b) => Some(Term::Abs(id, Box::new(b))),
                    None => None,
                },
            },
            Term::App(f, a) => match call_by_name(*f, k) {
                None => None,
                Some(Term::Abs(id, body)) => normal_order(subst(*body, *a, id.name), eta, k),
                Some(g) => match (normal_order(g, eta, k), normal_order(*a, eta, k)) {
                    (Some(g2), Some(a2)) => Some(Term::App(Box::new(g2), Box::new(a2))),
                    _ => None,
                },
            },
        }
    }
}

/// Call-by-value: the argument is reduced before it is substituted, and
/// nothing inside an abstraction is reduced.
pub open spec fn call_by_value(t: Term, fuel: nat) -> Option<Term>
    decreases fuel,
{
    if fuel == 0 {
        None
    } else {
        let k = (fuel - 1) as nat;
        match t {
            Term::App(f, a) => match (call_by_value(*f, k), call_by_value(*a, k)) {
                (Some(Term::Abs(id, body)), Some(a2)) => Some(subst(*body, a2, id.name)),
                (Some(g), Some(a2)) => Some(Term::App(Box::new(g), Box::new(a2))),
                _ => None,
            },
            _ => Some(t),
        }
    }
}

/// Applicative order: innermost first, into abstraction bodies.
pub open spec fn applicative(t: Term, eta: bool, fuel: nat) -> Option<Term>
    decreases fuel,
{
    if fuel == 0 {
        None
    } else {
        let k = (fuel - 1) as nat;
        match t {
            Term::Var(_) => Some(t),
            Term::Abs(id, body) => match eta_body(id, *body) {
                Some(e) if eta => applicative(e, eta, k),
                _ => match applicative(*body, eta, k) {
                    Some(b) => Some(Term::Abs(id, Box::new(b))),
                    None => None,
                },
            },
            Term::App(f, a) => match (applicative(*f, eta, k), applicative(*a, eta, k)) {
                (Some(Term::Abs(id, body)), Some(a2)) => applicative(
                    subst(*body, a2, id.name),
                    eta,
                    k,
                ),
                (Some(g), Some(a2)) => Some(Term::App(Box::new(g), Box::new(a2))),
                _ => None,
            },
        }
    }
}

/// Head spine: abstraction bodies are entered, and an application has its
/// head reduced by call-by-name and one β-step made, without going on.
pub open spec fn head_spine(t: Term, eta: bool, fuel: nat) -> Option<Term>
    decreases fuel,
{
    if fuel == 0 {
        None
    } else {
        let k = (fuel - 1) as nat;
        match t {
            Term::Var(_) => Some(t),
            Term::Abs(id, body) => match eta_body(id, *body) {
                Some(e) if eta => head_spine(e, eta, k),
                _ => match head_spine(*body, eta, k) {
                    Some(b) => Some(Term::Abs(id, Box::new(b))),
                    None => None,
                },
            },
            Term::App(f, a) => match call_by_name(*f, k) {
                None => None,
                Some(Term::Abs(id, body)) => Some(subst(*body, *a, id.name)),
                Some(g) => Some(Term::App(Box::new(g), a)),
            },
        }
    }
}

/// What reducing `t` by `s` within `fuel` gives: `None` when the budget
/// runs out.
pub open spec fn reduce(s: Strategy, t: Term, fuel: nat) -> Option<Term> {
    match s {
        Strategy::CallByName => call_by_name(t, fuel),
        Strategy::Normal(eta) => normal_order(t, eta, fuel),
        Strategy::CallByValue => call_by_value(t, fuel),
        Strategy::Applicative(eta) => applicative(t, eta, fuel),
        Strategy::HeadSpine(eta) => head_spine(t, eta, fuel),
    }
}

/// The model of the outcome of a reduction.
pub open spec fn outcome(r: Result<Expression, ReductionBudgetExceeded>) -> Option<Term> {
    match r {
        Ok(e) => Some(e@),
        Err(_) => None,
    }
}

/// Whether `λid.body` is an η-redex.
fn is_eta_redex(id: &Variable, body: &Expression) -> (r: bool)
    ensures
        r == eta_body(id@, body@) is Some,
{
    match body {
        Expression::App(Application(f, a)) => {
            let a: &Expression = a;
            let f: &Expression = f;
            assert(body@ == Term::App(Box::new(f@), Box::new(a@)));
            match a {
            Expression::Var(x) => {
                if x.0 == id.0 {
                    let fv = f.free_variables();
                    !has_name(&fv, &id.0)
                } else {
                    false
                }
            },
            _ => false,
        }
        },
        _ => false,
    }
}

impl Expression {
    /// Reduces by `strategy` within the default budget.
    pub fn normalize(&self, strategy: &Strategy) -> (r: Result<Expression, ReductionBudgetExceeded>)
        ensures
            outcome(r) == reduce(*strategy, self@, DEFAULT_BUDGET as nat),
    {
        self.normalize_within(strategy, DEFAULT_BUDGET)
    }

    /// Reduces by `strategy`, with at most `fuel` nested reduction calls.
    pub fn normalize_within(&self, strategy: &Strategy, fuel: u64) -> (r: Result<
        Expression,
        ReductionBudgetExceeded,
    >)
        ensures
            outcome(r) == reduce(*strategy, self@, fuel as nat),
    {
        let r = match *strategy {
            Strategy::CallByName => self.bn(fuel),
            Strategy::Normal(eta) => self.no(eta, fuel),
            Strategy::CallByValue => self.bv(fuel),
            Strategy::Applicative(eta) => self.ao(eta, fuel),
            Strategy::HeadSpine(eta) => self.hs(eta, fuel),
        };
        match r {
            Some(e) => Ok(e),
            None => Err(ReductionBudgetExceeded),
        }
    }

    /// Call-by-name within `fuel`.
    fn bn(&self, fuel: u64) -> (r: Option<Expression>)
        ensures
            opt_term(r) == call_by_name(self@, fuel as nat),
        decreases fuel,
    {
        if fuel == 0 {
            return None;
        }
        match self {
            Expression::App(Application(f, a)) => match f.bn(fuel - 1) {
                None => None,
                Some(Expression::Abs(Abstraction(id, body))) => {
                    let a: &Expression = a;
                    body.substitute(a, &id).bn(fuel - 1)
                },
                Some(g) => {
                    let a: &Expression = a;
                    Some(Expression::App(Application(Box::new(g), Box::new(a.clone()))))
                },
            },
            _ => Some(self.clone()),
        }
    }

    /// Normal order within `fuel`.
    fn no(&self, eta: bool, fuel: u64) -> (r: Option<Expression>)
        ensures
            opt_term(r) == normal_order(self@, eta, fuel as nat),
        decreases fuel,
    {
        if fuel == 0 {
            return None;
        }
        match self {
            Expression::Var(_) => Some(self.clone()),
            Expression::Abs(Abstraction(id, body)) => {
                if eta && is_eta_redex(id, body) {
                    if let Expression::App(Application(f, _)) = &**body {
                        return f.no(eta, fuel - 1);
                    }
                }
                match body.no(eta, fuel - 1) {
                    Some(b) => Some(Expression::Abs(Abstraction(id.clone(), Box::new(b)))),
                    None => None,
                }
            },
            Expression::App(Application(f, a)) => match f.bn(fuel - 1) {
                None => None,
                Some(Expression::Abs(Abstraction(id, body))) => {
                    let a: &Expression = a;
                    body.substitute(a, &id).no(eta, fuel - 1)
                },
                Some(g) => match (g.no(eta, fuel - 1), a.no(eta, fuel - 1)) {
                    (Some(g2), Some(a2)) => Some(
                        Expression::App(Application(Box::new(g2), Box::new(a2))),
                    ),
                    _ => None,
                },
            },
        }
    }

    /// Call-by-value within `fuel`.
    fn bv(&self, fuel: u64) -> (r: Option<Expression>)
        ensures
            opt_term(r) == call_by_value(self@, fuel as nat),
        decreases fuel,
    {
        if fuel == 0 {
            return None;
        }
        match self {
            Expression::App(Application(f, a)) => match (f.bv(fuel - 1), a.bv(fuel - 1)) {
                (Some(Expression::Abs(Abstraction(id, body))), Some(a2)) => Some(
                    body.substitute(&a2, &id),
                ),
                (Some(g), Some(a2)) => Some(
                    Expression::App(Application(Box::new(g), Box::new(a2))),
                ),
                _ => None,
            },
            _ => Some(self.clone()),
        }
    }

    /// Applicative order within `fuel`.
    fn ao(&self, eta: bool, fuel: u64) -> (r: Option<Expression>)
        ensures
            opt_term(r) == applicative(self@, eta, fuel as nat),
        decreases fuel,
    {
        if fuel == 0 {
            return None;
        }
        match self {
            Expression::Var(_) => Some(self.clone()),
            Expression::Abs(Abstraction(id, body)) => {
                if eta && is_eta_redex(id, body) {
                    if let Expression::App(Application(f, _)) = &**body {
                        return f.ao(eta, fuel - 1);
                    }
                }
                match body.ao(eta, fuel - 1) {
                    Some(b) => Some(Expression::Abs(Abstraction(id.clone(), Box::new(b)))),
                    None => None,
                }
            },
            Expression::App(Application(f, a)) => match (f.ao(eta, fuel - 1), a.ao(eta, fuel - 1)) {
                (Some(Expression::Abs(Abstraction(id, body))), Some(a2)) => body.substitute(
                    &a2,
                    &id,
                ).ao(eta, fuel - 1),
                (Some(g), Some(a2)) => Some(
                    Expression::App(Application(Box::new(g), Box::new(a2))),
                ),
                _ => None,
            },
        }
    }

    /// Head spine within `fuel`.
    fn hs(&self, eta: bool, fuel: u64) -> (r: Option<Expression>)
        ensures
            opt_term(r) == head_spine(self@, eta, fuel as nat),
        decreases fuel,
    {
        if fuel == 0 {
            return None;
        }
        match self {
            Expression::Var(_) => Some(self.clone()),
            Expression::Abs(Abstraction(id, body)) => {
                if eta && is_eta_redex(id, body) {
                    if let Expression::App(Application(f, _)) = &**body {
                        return f.hs(eta, fuel - 1);
                    }
                }
                match body.hs(eta, fuel - 1) {
                    Some(b) => Some(Expression::Abs(Abstraction(id.clone(), Box::new(b)))),
                    None => None,
                }
            },
            Expression::App(Application(f, a)) => match f.bn(fuel - 1) {
                None => None,
                Some(Expression::Abs(Abstraction(id, body))) => {
                    let a: &Expression = a;
                    Some(body.substitute(a, &id))
                },
                Some(g) => {
                    let a: &Expression = a;
                    Some(Expression::App(Application(Box::new(g), Box::new(a.clone()))))
                },
            },
        }
    }
}

} // verus!
