//! Building curried abstractions.
use vstd::prelude::*;

use crate::term::{Abstraction, Expression, Ident, Term, Variable};

verus! {

/// The anonymous binder, whose name is empty.
pub open spec fn anonymous() -> Ident {
    Ident { name: Seq::empty(), ty: None }
}

/// `λids[0]. λids[1]. ... body`.
pub open spec fn curry(ids: Seq<Variable>, body: Term) -> Term
    decreases ids.len(),
{
    if ids.len() == 0 {
        body
    } else {
        Term::Abs(ids[0]@, Box::new(curry(ids.drop_first(), body)))
    }
}

/// `t` under `n` anonymous abstractions.
pub open spec fn wrap(n: nat, t: Term) -> Term
    decreases n,
{
    if n == 0 {
        t
    } else {
        Term::Abs(anonymous(), Box::new(wrap((n - 1) as nat, t)))
    }
}

/// What `build_abs(lambs, ids, body)` builds: the body (the anonymous
/// variable when absent) abstracted over `ids`, which stand for the first
/// of the `lambs` abstractions, the rest of them anonymous.
pub open spec fn built(lambs: nat, ids: Seq<Variable>, body: Option<Term>) -> Term {
    let b = match body {
        Some(t) => t,
        None => Term::Var(anonymous()),
    };
    let extra: nat = if ids.len() > 0 && lambs > 0 {
        (lambs - 1) as nat
    } else {
        lambs
    };
    wrap(extra, curry(ids, b))
}

impl Expression {
    /// Abstracts `body` over each of `ids` in turn, then adds anonymous
    /// abstractions so that `lambs` are made in all, counting the whole
    /// curried run of `ids` as the first.
    pub fn build_abs(lambs: usize, ids: Vec<Variable>, body: Option<Expression>) -> (r: Self)
        ensures
            r@ == built(
                lambs as nat,
                ids@,
                match body {
                    Some(e) => Some(e@),
                    None => None,
                },
            ),
    {
        let ghost b0 = match &body {
            Some(e) => e@,
            None => Term::Var(anonymous()),
        };
        let mut abs = match body {
            Some(e) => e,
            None => Expression::Var(Variable(String::new(), None)),
        };
        let id_count = ids.len();
        let mut i: usize = id_count;
        assert(ids@.subrange(i as int, id_count as int) =~= Seq::<Variable>::empty());
        while i > 0
            invariant
                i <= id_count,
                id_count == ids.len(),
                abs@ == curry(ids@.subrange(i as int, id_count as int), b0),
            decreases i,
        {
            let ghost rest = ids@.subrange(i as int, id_count as int);
            i = i - 1;
            let ghost now = ids@.subrange(i as int, id_count as int);
            assert(now.drop_first() =~= rest);
            abs = Expression::Abs(Abstraction(ids[i].clone(), Box::new(abs)));
        }
        assert(ids@.subrange(0, id_count as int) =~= ids@);
        let ghost inner = abs@;
        let extra: usize = if id_count > 0 && lambs > 0 {
            lambs - 1
        } else {
            lambs
        };
        let mut l: usize = 0;
        while l < extra
            invariant
                l <= extra,
                abs@ == wrap(l as nat, inner),
            decreases extra - l,
        {
            abs = Expression::Abs(Abstraction(Variable(String::new(), None), Box::new(abs)));
            l = l + 1;
        }
        abs
    }
}

} // verus!
