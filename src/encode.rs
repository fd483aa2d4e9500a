//! Church encodings of booleans and natural numbers.
use vstd::prelude::*;

use crate::normal::{outcome, reduce, ReductionBudgetExceeded, Strategy, DEFAULT_BUDGET};
use crate::term::{Abstraction, Application, Expression, Ident, Term, Variable};

verus! {

/// The unannotated variable named `n`.
pub open spec fn plain(n: Seq<char>) -> Ident {
    Ident { name: n, ty: None }
}

pub open spec fn var_t(n: char) -> Term {
    Term::Var(plain(seq![n]))
}

pub open spec fn abs_t(n: char, body: Term) -> Term {
    Term::Abs(plain(seq![n]), Box::new(body))
}

pub open spec fn app_t(f: Term, a: Term) -> Term {
    Term::App(Box::new(f), Box::new(a))
}

/// `λa.λb.a` for true, `λa.λb.b` for false.
pub open spec fn church_bool(b: bool) -> Term {
    abs_t('a', abs_t('b', var_t(if b { 'a' } else { 'b' })))
}

/// `f (f (... (f x)))` with `n` applications of `f`.
pub open spec fn f_applied(n: nat) -> Term
    decreases n,
{
    if n == 0 {
        var_t('x')
    } else {
        app_t(var_t('f'), f_applied((n - 1) as nat))
    }
}

/// The Church numeral `λf.λx.f (... (f x))`.
pub open spec fn church_nat(n: nat) -> Term {
    abs_t('f', abs_t('x', f_applied(n)))
}

/// The boolean that `t` encodes: `λa.λb.a` is true and `λa.λb.b` false,
/// whatever the two names; anything else encodes none.
pub open spec fn decode_bool(t: Term) -> Option<bool> {
    match t {
        Term::Abs(a, inner) => match *inner {
            Term::Abs(b, body) => match *body {
                Term::Var(p) => if p.name == b.name {
                    Some(false)
                } else if p.name == a.name {
                    Some(true)
                } else {
                    None
                },
                _ => None,
            },
            _ => None,
        },
        _ => None,
    }
}

/// How many times `body` applies `f` to `x`, when it has the shape
/// `f (... (f x))` with `f` and `x` distinct.
pub open spec fn count_applied(body: Term, f: Seq<char>, x: Seq<char>) -> Option<nat>
    decreases body,
{
    match body {
        Term::Var(v) => if v.name == x {
            Some(0)
        } else {
            None
        },
        Term::App(g, a) => match *g {
            Term::Var(h) => if h.name == f && f != x {
                match count_applied(*a, f, x) {
                    Some(k) => Some(k + 1),
                    None => None,
                }
            } else {
                None
            },
            _ => None,
        },
        _ => None,
    }
}

/// The number that `t` encodes, whatever its two names: `λf.λx.f (... (f x))`.
pub open spec fn decode_nat(t: Term) -> Option<nat> {
    match t {
        Term::Abs(f, inner) => match *inner {
            Term::Abs(x, body) => count_applied(*body, f.name, x.name),
            _ => None,
        },
        _ => None,
    }
}

/// `λp.λa.λb.((p b) a)`.
pub open spec fn not_term() -> Term {
    abs_t('p', abs_t('a', abs_t('b', app_t(app_t(var_t('p'), var_t('b')), var_t('a')))))
}

/// `λp.λq.((p p) q)`.
pub open spec fn or_term() -> Term {
    abs_t('p', abs_t('q', app_t(app_t(var_t('p'), var_t('p')), var_t('q'))))
}

/// `λp.λq.((p q) p)`.
pub open spec fn and_term() -> Term {
    abs_t('p', abs_t('q', app_t(app_t(var_t('p'), var_t('q')), var_t('p'))))
}

/// `λp.λq.((p (not q)) q)`.
pub open spec fn xor_term() -> Term {
    abs_t('p', abs_t('q', app_t(app_t(var_t('p'), app_t(not_term(), var_t('q'))), var_t('q'))))
}

/// `λm.λn.λf.λx.((m f) ((n f) x))`.
pub open spec fn add_term() -> Term {
    abs_t(
        'm',
        abs_t(
            'n',
            abs_t(
                'f',
                abs_t(
                    'x',
                    app_t(
                        app_t(var_t('m'), var_t('f')),
                        app_t(app_t(var_t('n'), var_t('f')), var_t('x')),
                    ),
                ),
            ),
        ),
    )
}

/// `λm.λn.λf.λx.((m (n f)) x)`.
pub open spec fn mul_term() -> Term {
    abs_t(
        'm',
        abs_t(
            'n',
            abs_t(
                'f',
                abs_t('x', app_t(app_t(var_t('m'), app_t(var_t('n'), var_t('f'))), var_t('x'))),
            ),
        ),
    )
}

/// The strategy that the encodings compute with.
pub open spec fn encoding_strategy() -> Strategy {
    Strategy::Applicative(false)
}

/// What reducing `t` as the encodings do gives.
pub open spec fn evaluate(t: Term) -> Option<Term> {
    reduce(encoding_strategy(), t, DEFAULT_BUDGET as nat)
}

/// `k` more than `o`.
pub open spec fn plus_opt(o: Option<nat>, k: nat) -> Option<nat> {
    match o {
        Some(n) => Some(n + k),
        None => None,
    }
}

/// A numeral decodes to its own number.
pub proof fn lemma_decode_church_nat(n: nat)
    ensures
        decode_nat(church_nat(n)) == Some(n),
{
    lemma_count_f_applied(n);
}

proof fn lemma_count_f_applied(n: nat)
    ensures
        count_applied(f_applied(n), seq!['f'], seq!['x']) == Some(n),
    decreases n,
{
    assert(seq!['f'][0] != seq!['x'][0]);
    if n > 0 {
        lemma_count_f_applied((n - 1) as nat);
    }
}

fn var_named(n: &str) -> (r: Expression)
    ensures
        r@ == Term::Var(plain(n@)),
{
    Expression::Var(Variable(n.to_owned(), None))
}

fn abs_named(n: &str, body: Expression) -> (r: Expression)
    ensures
        r@ == Term::Abs(plain(n@), Box::new(body@)),
{
    Expression::Abs(Abstraction(Variable(n.to_owned(), None), Box::new(body)))
}

fn app_of(f: Expression, a: Expression) -> (r: Expression)
    ensures
        r@ == app_t(f@, a@),
{
    Expression::App(Application(Box::new(f), Box::new(a)))
}

fn not_expr() -> (r: Expression)
    ensures
        r@ == not_term(),
{
    proof {
        reveal_strlit("p");
            assert("p"@ =~= seq!['p']);
        reveal_strlit("a");
            assert("a"@ =~= seq!['a']);
        reveal_strlit("b");
            assert("b"@ =~= seq!['b']);
    }
    abs_named(
        "p",
        abs_named(
            "a",
            abs_named("b", app_of(app_of(var_named("p"), var_named("b")), var_named("a"))),
        ),
    )
}

/// Reduces `e` as the encodings do.
fn evaluated(e: Expression) -> (r: Result<Expression, ReductionBudgetExceeded>)
    ensures
        outcome(r) == evaluate(e@),
{
    e.normalize(&Strategy::Applicative(false))
}

/// How many times `body` applies `f` to `x`; `None` also where the count
/// does not fit in a `u64`.
fn count_from(body: &Expression, f: &String, x: &String) -> (r: Option<u64>)
    ensures
        match r {
            Some(k) => count_applied(body@, f@, x@) == Some(k as nat),
            None => count_applied(body@, f@, x@) is None || count_applied(body@, f@, x@)->Some_0
                > u64::MAX,
        },
{
    let mut cur: &Expression = body;
    let mut k: u64 = 0;
    loop
        invariant
            count_applied(body@, f@, x@) == plus_opt(count_applied(cur@, f@, x@), k as nat),
        decreases crate::subst::size(cur@),
    {
        match cur {
            Expression::Var(v) => {
                return if v.0 == *x {
                    Some(k)
                } else {
                    None
                };
            },
            Expression::App(Application(g, a)) => {
                let g: &Expression = g;
                let a: &Expression = a;
                assert(cur@ == app_t(g@, a@));
                match g {
                    Expression::Var(h) => {
                        if h.0 == *f && !(*f == *x) {
                            if k == u64::MAX {
                                return None;
                            }
                            k = k + 1;
                            cur = a;
                        } else {
                            return None;
                        }
                    },
                    _ => {
                        return None;
                    },
                }
            },
            _ => {
                return None;
            },
        }
    }
}

impl Expression {
    /// The Church boolean `λa.λb.a` for true, `λa.λb.b` for false.
    pub fn from_bool(b: bool) -> (r: Expression)
        ensures
            r@ == church_bool(b),
            decode_bool(r@) == Some(b),
    {
        proof {
            assert(seq!['a'][0] != seq!['b'][0]);
            reveal_strlit("a");
            assert("a"@ =~= seq!['a']);
            reveal_strlit("b");
            assert("b"@ =~= seq!['b']);
        }
        let body = if b {
            var_named("a")
        } else {
            var_named("b")
        };
        abs_named("a", abs_named("b", body))
    }

    /// The Church numeral `λf.λx.f (... (f x))` for `n`.
    pub fn from_u64(n: u64) -> (r: Expression)
        ensures
            r@ == church_nat(n as nat),
            decode_nat(r@) == Some(n as nat),
    {
        proof {
            lemma_decode_church_nat(n as nat);
        }
        proof {
            reveal_strlit("f");
            assert("f"@ =~= seq!['f']);
            reveal_strlit("x");
            assert("x"@ =~= seq!['x']);
        }
        let mut body = var_named("x");
        let mut i: u64 = 0;
        while i < n
            invariant
                i <= n,
                body@ == f_applied(i as nat),
            decreases n - i,
        {
            proof {
                reveal_strlit("f");
                assert("f"@ =~= seq!['f']);
            }
            body = app_of(var_named("f"), body);
            i = i + 1;
        }
        abs_named("f", abs_named("x", body))
    }

    /// The boolean that this expression, taken as it is, encodes.
    pub fn as_bool(&self) -> (r: Option<bool>)
        ensures
            r == decode_bool(self@),
    {
        match self {
            Expression::Abs(Abstraction(a, inner)) => {
                let inner: &Expression = inner;
                assert(self@ == Term::Abs(a@, Box::new(inner@)));
                match inner {
                    Expression::Abs(Abstraction(b, body)) => {
                        let body: &Expression = body;
                        assert(inner@ == Term::Abs(b@, Box::new(body@)));
                        match body {
                            Expression::Var(p) => {
                                if p.0 == b.0 {
                                    Some(false)
                                } else if p.0 == a.0 {
                                    Some(true)
                                } else {
                                    None
                                }
                            },
                            _ => None,
                        }
                    },
                    _ => None,
                }
            },
            _ => None,
        }
    }

    /// The number that this expression, taken as it is, encodes; `None`
    /// also where it does not fit in a `u64`.
    pub fn as_u64(&self) -> (r: Option<u64>)
        ensures
            match r {
                Some(k) => decode_nat(self@) == Some(k as nat),
                None => decode_nat(self@) is None || decode_nat(self@)->Some_0 > u64::MAX,
            },
    {
        match self {
            Expression::Abs(Abstraction(f, inner)) => {
                let inner: &Expression = inner;
                assert(self@ == Term::Abs(f@, Box::new(inner@)));
                match inner {
                    Expression::Abs(Abstraction(x, body)) => {
                        let body: &Expression = body;
                        assert(inner@ == Term::Abs(x@, Box::new(body@)));
                        count_from(body, &f.0, &x.0)
                    },
                    _ => None,
                }
            },
            _ => None,
        }
    }

    /// The boolean that this expression reduces to.
    pub fn to_bool(&self) -> (r: Result<Option<bool>, ReductionBudgetExceeded>)
        ensures
            match r {
                Ok(b) => evaluate(self@) matches Some(t) && b == decode_bool(t),
                Err(_) => evaluate(self@) is None,
            },
    {
        match evaluated(self.clone()) {
            Ok(e) => Ok(e.as_bool()),
            Err(e) => Err(e),
        }
    }

    /// The number that this expression reduces to; `Ok(None)` also where it
    /// does not fit in a `u64`.
    pub fn to_u64(&self) -> (r: Result<Option<u64>, ReductionBudgetExceeded>)
        ensures
            match r {
                Ok(Some(k)) => evaluate(self@) matches Some(t) && decode_nat(t) == Some(k as nat),
                Ok(None) => evaluate(self@) matches Some(t) && (decode_nat(t) is None || decode_nat(
                    t,
                )->Some_0 > u64::MAX),
                Err(_) => evaluate(self@) is None,
            },
    {
        match evaluated(self.clone()) {
            Ok(e) => Ok(e.as_u64()),
            Err(e) => Err(e),
        }
    }

    /// Church negation: `(λp.λa.λb.((p b) a)) self`, reduced.
    pub fn not(&self) -> (r: Result<Expression, ReductionBudgetExceeded>)
        ensures
            outcome(r) == evaluate(app_t(not_term(), self@)),
    {
        evaluated(app_of(not_expr(), self.clone()))
    }

    /// Church disjunction: `(λp.λq.((p p) q)) self other`, reduced.
    pub fn or(&self, other: &Expression) -> (r: Result<Expression, ReductionBudgetExceeded>)
        ensures
            outcome(r) == evaluate(app_t(app_t(or_term(), self@), other@)),
    {
        proof {
            reveal_strlit("p");
            assert("p"@ =~= seq!['p']);
        }
        proof {
            reveal_strlit("q");
            assert("q"@ =~= seq!['q']);
        }
        let op = abs_named("p", abs_named("q", app_of(app_of(var_named("p"), var_named("p")), var_named("q"))));
        evaluated(app_of(app_of(op, self.clone()), other.clone()))
    }

    /// Church conjunction: `(λp.λq.((p q) p)) self other`, reduced.
    pub fn and(&self, other: &Expression) -> (r: Result<Expression, ReductionBudgetExceeded>)
        ensures
            outcome(r) == evaluate(app_t(app_t(and_term(), self@), other@)),
    {
        proof {
            reveal_strlit("p");
            assert("p"@ =~= seq!['p']);
            reveal_strlit("q");
            assert("q"@ =~= seq!['q']);
        }
        let op = abs_named("p", abs_named("q", app_of(app_of(var_named("p"), var_named("q")), var_named("p"))));
        evaluated(app_of(app_of(op, self.clone()), other.clone()))
    }

    /// Church exclusive or: `(λp.λq.((p (not q)) q)) self other`, reduced.
    pub fn xor(&self, other: &Expression) -> (r: Result<Expression, ReductionBudgetExceeded>)
        ensures
            outcome(r) == evaluate(app_t(app_t(xor_term(), self@), other@)),
    {
        proof {
            reveal_strlit("p");
            assert("p"@ =~= seq!['p']);
            reveal_strlit("q");
            assert("q"@ =~= seq!['q']);
        }
        let op = abs_named(
            "p",
            abs_named(
                "q",
                app_of(app_of(var_named("p"), app_of(not_expr(), var_named("q"))), var_named("q")),
            ),
        );
        evaluated(app_of(app_of(op, self.clone()), other.clone()))
    }

    /// Church addition: `(λm.λn.λf.λx.((m f) ((n f) x))) self other`, reduced.
    pub fn plus(&self, other: &Expression) -> (r: Result<Expression, ReductionBudgetExceeded>)
        ensures
            outcome(r) == evaluate(app_t(app_t(add_term(), self@), other@)),
    {
        proof {
            reveal_strlit("m");
            assert("m"@ =~= seq!['m']);
            reveal_strlit("n");
            assert("n"@ =~= seq!['n']);
            reveal_strlit("f");
            assert("f"@ =~= seq!['f']);
            reveal_strlit("x");
            assert("x"@ =~= seq!['x']);
        }
        let body = app_of(
            app_of(var_named("m"), var_named("f")),
            app_of(app_of(var_named("n"), var_named("f")), var_named("x")),
        );
        let op = abs_named("m", abs_named("n", abs_named("f", abs_named("x", body))));
        evaluated(app_of(app_of(op, self.clone()), other.clone()))
    }

    /// Church multiplication: `(λm.λn.λf.λx.((m (n f)) x)) self other`, reduced.
    pub fn times(&self, other: &Expression) -> (r: Result<Expression, ReductionBudgetExceeded>)
        ensures
            outcome(r) == evaluate(app_t(app_t(mul_term(), self@), other@)),
    {
        proof {
            reveal_strlit("m");
            assert("m"@ =~= seq!['m']);
            reveal_strlit("n");
            assert("n"@ =~= seq!['n']);
            reveal_strlit("f");
            assert("f"@ =~= seq!['f']);
            reveal_strlit("x");
            assert("x"@ =~= seq!['x']);
        }
        let body = app_of(app_of(var_named("m"), app_of(var_named("n"), var_named("f"))), var_named("x"));
        let op = abs_named("m", abs_named("n", abs_named("f", abs_named("x", body))));
        evaluated(app_of(app_of(op, self.clone()), other.clone()))
    }
}

} // verus!
