//! Resolution of free variables against an environment of definitions.
use vstd::prelude::*;

use crate::free::{has_name, lemma_names_push, names};
use crate::term::{opt_term, Abstraction, Application, Expression, Term, Variable};

verus! {

/// The model of the first definition of `n` in `env`.
pub open spec fn lookup(env: Seq<(Variable, Expression)>, n: Seq<char>) -> Option<Term>
    decreases env.len(),
{
    if env.len() == 0 {
        None
    } else if env[0].0@.name == n {
        Some(env[0].1@)
    } else {
        lookup(env.drop_first(), n)
    }
}

/// `t` with each free variable that `env` defines, and that no name of
/// `shadowed` hides, replaced by its definition.
pub open spec fn resolve_in(
    t: Term,
    env: Seq<(Variable, Expression)>,
    shadowed: Set<Seq<char>>,
) -> Term
    decreases t,
{
    match t {
        Term::Var(v) => if !shadowed.contains(v.name) && lookup(env, v.name) is Some {
            lookup(env, v.name)->Some_0
        } else {
            t
        },
        Term::Abs(id, body) => Term::Abs(
            id,
            Box::new(resolve_in(*body, env, shadowed.insert(id.name))),
        ),
        Term::App(f, a) => Term::App(
            Box::new(resolve_in(*f, env, shadowed)),
            Box::new(resolve_in(*a, env, shadowed)),
        ),
    }
}

/// The first definition of `n` in `env`.
fn find(env: &Vec<(Variable, Expression)>, n: &String) -> (r: Option<Expression>)
    ensures
        opt_term(r) == lookup(env@, n@),
{
    let mut i: usize = 0;
    assert(env@.skip(0) =~= env@);
    while i < env.len()
        invariant
            i <= env.len(),
            lookup(env@, n@) == lookup(env@.skip(i as int), n@),
        decreases env.len() - i,
    {
        assert(env@.skip(i as int).drop_first() =~= env@.skip(i + 1));
        if env[i].0.0 == *n {
            return Some(env[i].1.clone());
        }
        i = i + 1;
    }
    None
}

impl Expression {
    /// Replaces each free variable that `env` defines by its first
    /// definition there. Variables bound by an enclosing λ are left alone.
    pub fn resolve(&self, env: &Vec<(Variable, Expression)>) -> (r: Expression)
        ensures
            r@ == resolve_in(self@, env@, Set::empty()),
    {
        let mut shadowed: Vec<Variable> = Vec::new();
        assert(names(shadowed@) =~= Set::empty());
        self.resolve_under(env, &mut shadowed)
    }

    fn resolve_under(&self, env: &Vec<(Variable, Expression)>, shadowed: &mut Vec<Variable>) -> (r: Expression)
        ensures
            r@ == resolve_in(self@, env@, names(old(shadowed)@)),
            final(shadowed)@ == old(shadowed)@,
        decreases self,
    {
        match self {
            Expression::Var(v) => {
                if has_name(shadowed, &v.0) {
                    return self.clone();
                }
                match find(env, &v.0) {
                    Some(e) => e,
                    None => self.clone(),
                }
            },
            Expression::Abs(Abstraction(id, body)) => {
                let ghost pre = shadowed@;
                let v = id.clone();
                proof {
                    lemma_names_push(pre, v);
                }
                shadowed.push(v);
                let b = body.resolve_under(env, shadowed);
                shadowed.pop();
                assert(shadowed@ =~= pre);
                Expression::Abs(Abstraction(id.clone(), Box::new(b)))
            },
            Expression::App(Application(f, a)) => {
                let f2 = f.resolve_under(env, shadowed);
                let a2 = a.resolve_under(env, shadowed);
                Expression::App(Application(Box::new(f2), Box::new(a2)))
            },
        }
    }
}

} // verus!
