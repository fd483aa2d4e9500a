//! Renaming and capture-avoiding substitution.
use vstd::prelude::*;

use crate::free::{add_name, all_vars, free_vars, has_name, names, union_into};
use crate::term::{Abstraction, Application, Expression, Ident, Term, Variable};

verus! {

/// The number of nodes of `t`.
pub open spec fn size(t: Term) -> nat
    decreases t,
{
    match t {
        Term::Var(_) => 1,
        Term::Abs(_, body) => 1 + size(*body),
        Term::App(f, a) => 1 + size(*f) + size(*a),
    }
}

/// The length of the longest name in `t`.
pub open spec fn max_len(t: Term) -> nat
    decreases t,
{
    match t {
        Term::Var(v) => v.name.len(),
        Term::Abs(id, body) => if id.name.len() >= max_len(*body) {
            id.name.len()
        } else {
            max_len(*body)
        },
        Term::App(f, a) => if max_len(*f) >= max_len(*a) {
            max_len(*f)
        } else {
            max_len(*a)
        },
    }
}

/// A variable named `old` becomes `new`; any other stays.
pub open spec fn rename_ident(v: Ident, old: Seq<char>, new: Ident) -> Ident {
    if v.name == old {
        new
    } else {
        v
    }
}

/// Blind renaming: every variable named `old`, binders included, becomes `new`.
pub open spec fn rename(t: Term, old: Seq<char>, new: Ident) -> Term
    decreases t,
{
    match t {
        Term::Var(v) => Term::Var(rename_ident(v, old, new)),
        Term::Abs(id, body) => Term::Abs(
            rename_ident(id, old, new),
            Box::new(rename(*body, old, new)),
        ),
        Term::App(f, a) => Term::App(
            Box::new(rename(*f, old, new)),
            Box::new(rename(*a, old, new)),
        ),
    }
}

/// The first of `cand`, `cand'`, `cand''`, ... that `avoid` does not hold,
/// where every name of `avoid` is at most `bound` long.
pub open spec fn fresh_from(cand: Seq<char>, avoid: Set<Seq<char>>, bound: nat) -> Seq<char>
    decreases bound + 1 - cand.len(),
{
    if avoid.contains(cand) && cand.len() <= bound {
        fresh_from(cand.push('\''), avoid, bound)
    } else {
        cand
    }
}

/// The names a fresh binder must differ from when `value` is substituted for
/// `target` under a binder whose body is `body`.
pub open spec fn taken(value: Term, body: Term, target: Seq<char>) -> Set<Seq<char>> {
    free_vars(value).union(all_vars(body)).insert(target)
}

/// A length that no name of `taken(value, body, target)` exceeds.
pub open spec fn taken_bound(value: Term, body: Term, target: Seq<char>) -> nat {
    max_len(value) + max_len(body) + target.len()
}

/// The binder that replaces `id` when substituting `value` for `target`
/// in `body` would otherwise capture it: the name of `id` with primes
/// appended until it clashes with nothing, and no annotation.
pub open spec fn fresh_binder(id: Ident, value: Term, body: Term, target: Seq<char>) -> Ident {
    Ident {
        name: fresh_from(
            id.name.push('\''),
            taken(value, body, target),
            taken_bound(value, body, target),
        ),
        ty: None,
    }
}

/// `t[target := value]`, renaming a binder that would capture a free
/// variable of `value`.
pub open spec fn subst(t: Term, value: Term, target: Seq<char>) -> Term
    decreases size(t),
    via subst_decreases
{
    match t {
        Term::Var(v) => if v.name == target {
            value
        } else {
            t
        },
        Term::App(f, a) => Term::App(
            Box::new(subst(*f, value, target)),
            Box::new(subst(*a, value, target)),
        ),
        Term::Abs(id, body) => if id.name == target {
            t
        } else if !free_vars(value).contains(id.name) {
            Term::Abs(id, Box::new(subst(*body, value, target)))
        } else {
            let fresh = fresh_binder(id, value, *body, target);
            Term::Abs(fresh, Box::new(subst(rename(*body, id.name, fresh), value, target)))
        },
    }
}

#[via_fn]
proof fn subst_decreases(t: Term, value: Term, target: Seq<char>) {
    match t {
        Term::Abs(id, body) => {
            lemma_rename_size(*body, id.name, fresh_binder(id, value, *body, target));
        },
        _ => {},
    }
}

pub proof fn lemma_rename_size(t: Term, old: Seq<char>, new: Ident)
    ensures
        size(rename(t, old, new)) == size(t),
    decreases t,
{
    match t {
        Term::Var(_) => {},
        Term::Abs(_, body) => lemma_rename_size(*body, old, new),
        Term::App(f, a) => {
            lemma_rename_size(*f, old, new);
            lemma_rename_size(*a, old, new);
        },
    }
}

/// Every name of `t` is at most `max_len(t)` long.
pub proof fn lemma_max_len(t: Term, n: Seq<char>)
    requires
        all_vars(t).contains(n),
    ensures
        n.len() <= max_len(t),
    decreases t,
{
    match t {
        Term::Var(_) => {},
        Term::Abs(id, body) => {
            if n != id.name {
                lemma_max_len(*body, n);
            }
        },
        Term::App(f, a) => {
            if all_vars(*f).contains(n) {
                lemma_max_len(*f, n);
            } else {
                lemma_max_len(*a, n);
            }
        },
    }
}

/// A free variable is a variable.
pub proof fn lemma_free_in_all(t: Term)
    ensures
        free_vars(t).subset_of(all_vars(t)),
    decreases t,
{
    match t {
        Term::Var(_) => {},
        Term::Abs(_, body) => lemma_free_in_all(*body),
        Term::App(f, a) => {
            lemma_free_in_all(*f);
            lemma_free_in_all(*a);
        },
    }
}

/// The fresh name clashes with nothing that is taken, and is longer than
/// the name it was made from.
pub proof fn lemma_fresh_from(cand: Seq<char>, avoid: Set<Seq<char>>, bound: nat)
    requires
        forall|n: Seq<char>| avoid.contains(n) ==> n.len() <= bound,
    ensures
        !avoid.contains(fresh_from(cand, avoid, bound)),
        fresh_from(cand, avoid, bound).len() >= cand.len(),
    decreases bound + 1 - cand.len(),
{
    if avoid.contains(cand) && cand.len() <= bound {
        lemma_fresh_from(cand.push('\''), avoid, bound);
    }
}

pub proof fn lemma_taken_bound(value: Term, body: Term, target: Seq<char>)
    ensures
        forall|n: Seq<char>|
            taken(value, body, target).contains(n) ==> n.len() <= taken_bound(value, body, target),
{
    assert forall|n: Seq<char>| taken(value, body, target).contains(n) implies n.len()
        <= taken_bound(value, body, target) by {
        lemma_free_in_all(value);
        if free_vars(value).contains(n) {
            lemma_max_len(value, n);
        } else if all_vars(body).contains(n) {
            lemma_max_len(body, n);
        }
    }
}

impl Variable {
    /// This variable, or `new` where its name is that of `old`.
    pub fn replace(&self, old: &Variable, new: &Variable) -> (r: Variable)
        ensures
            r@ == rename_ident(self@, old@.name, new@),
    {
        if self.0 == old.0 {
            new.clone()
        } else {
            self.clone()
        }
    }
}

/// Appends primes to the name of `id` until it is not among `avoid`.
fn fresh_variable(id: &Variable, avoid: &Vec<Variable>, Ghost(bound): Ghost<nat>) -> (r: Variable)
    requires
        forall|n: Seq<char>| names(avoid@).contains(n) ==> n.len() <= bound,
    ensures
        r@ == (Ident {
            name: fresh_from(id@.name.push('\''), names(avoid@), bound),
            ty: None,
        }),
        !names(avoid@).contains(r@.name),
{
    proof {
        reveal_strlit("'");
    }
    let mut cand = id.0.clone().concat("'");
    assert(cand@ =~= id@.name.push('\''));
    while has_name(avoid, &cand)
        invariant
            forall|n: Seq<char>| names(avoid@).contains(n) ==> n.len() <= bound,
            fresh_from(cand@, names(avoid@), bound) == fresh_from(
                id@.name.push('\''),
                names(avoid@),
                bound,
            ),
        decreases bound + 1 - cand@.len(),
    {
        proof {
            reveal_strlit("'");
        }
        let ghost prev = cand@;
        assert(fresh_from(prev, names(avoid@), bound) == fresh_from(
            prev.push('\''),
            names(avoid@),
            bound,
        ));
        cand = cand.concat("'");
        assert(cand@ =~= prev.push('\''));
    }
    proof {
        lemma_fresh_from(id@.name.push('\''), names(avoid@), bound);
    }
    Variable(cand, None)
}

impl Expression {
    /// Blind renaming: every variable named as `old`, binders included,
    /// becomes `new`.
    pub fn replace(&self, old: &Variable, new: &Variable) -> (r: Expression)
        ensures
            r@ == rename(self@, old@.name, new@),
        decreases self,
    {
        match self {
            Expression::Var(v) => Expression::Var(v.replace(old, new)),
            Expression::Abs(Abstraction(id, body)) => Expression::Abs(
                Abstraction(id.replace(old, new), Box::new(body.replace(old, new))),
            ),
            Expression::App(Application(f, a)) => Expression::App(
                Application(Box::new(f.replace(old, new)), Box::new(a.replace(old, new))),
            ),
        }
    }

    /// `self[x := v]`: capture-avoiding substitution of `v` for the free
    /// occurrences of `x`.
    pub fn substitute(&self, v: &Expression, x: &Variable) -> (r: Expression)
        ensures
            r@ == subst(self@, v@, x@.name),
        decreases size(self@),
    {
        match self {
            Expression::Var(id) => {
                if id.0 == x.0 {
                    v.clone()
                } else {
                    self.clone()
                }
            },
            Expression::App(Application(f, a)) => Expression::App(
                Application(Box::new(f.substitute(v, x)), Box::new(a.substitute(v, x))),
            ),
            Expression::Abs(Abstraction(id, body)) => {
                if id.0 == x.0 {
                    return self.clone();
                }
                let fv = v.free_variables();
                if !has_name(&fv, &id.0) {
                    return Expression::Abs(Abstraction(id.clone(), Box::new(body.substitute(v, x))));
                }
                let mut avoid = fv;
                add_name(&mut avoid, x.clone());
                union_into(&mut avoid, body.variables());
                assert(names(avoid@) =~= taken(v@, body@, x@.name));
                proof {
                    lemma_taken_bound(v@, body@, x@.name);
                }
                let fresh = fresh_variable(id, &avoid, Ghost(taken_bound(v@, body@, x@.name)));
                let renamed = body.replace(id, &fresh);
                proof {
                    lemma_rename_size(body@, id@.name, fresh@);
                }
                let sub = renamed.substitute(v, x);
                Expression::Abs(Abstraction(fresh, Box::new(sub)))
            },
        }
    }
}

} // verus!
