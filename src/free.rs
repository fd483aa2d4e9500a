//! Variable sets of a term: every name that occurs, and the free ones.
use vstd::prelude::*;

use crate::term::{Abstraction, Application, Expression, Term, Variable};

verus! {

/// The names of the variables that occur free in `t`.
pub open spec fn free_vars(t: Term) -> Set<Seq<char>>
    decreases t,
{
    match t {
        Term::Var(v) => set![v.name],
        Term::Abs(id, body) => free_vars(*body).remove(id.name),
        Term::App(f, a) => free_vars(*f).union(free_vars(*a)),
    }
}

/// The names of all the variables of `t`, binders included.
pub open spec fn all_vars(t: Term) -> Set<Seq<char>>
    decreases t,
{
    match t {
        Term::Var(v) => set![v.name],
        Term::Abs(id, body) => all_vars(*body).insert(id.name),
        Term::App(f, a) => all_vars(*f).union(all_vars(*a)),
    }
}

/// The set of names held by a sequence of variables.
pub open spec fn names(vs: Seq<Variable>) -> Set<Seq<char>> {
    Set::new(|n: Seq<char>| exists|i: int| 0 <= i < vs.len() && #[trigger] vs[i]@.name == n)
}

/// No name occurs twice in `vs`.
pub open spec fn distinct_names(vs: Seq<Variable>) -> bool {
    forall|i: int, j: int|
        0 <= i < vs.len() && 0 <= j < vs.len() && i != j ==> #[trigger] vs[i]@.name
            != #[trigger] vs[j]@.name
}

/// Pushing a variable adds exactly its name.
pub proof fn lemma_names_push(vs: Seq<Variable>, v: Variable)
    ensures
        names(vs.push(v)) == names(vs).insert(v@.name),
{
    let w = vs.push(v);
    assert(w[vs.len() as int] == v);
    assert forall|n: Seq<char>| names(vs).contains(n) implies names(w).contains(n) by {
        let i = choose|i: int| 0 <= i < vs.len() && #[trigger] vs[i]@.name == n;
        assert(w[i] == vs[i]);
    }
    assert forall|n: Seq<char>| names(w).contains(n) implies names(vs).insert(v@.name).contains(
        n,
    ) by {
        let i = choose|i: int| 0 <= i < w.len() && #[trigger] w[i]@.name == n;
        if i < vs.len() {
            assert(vs[i] == w[i]);
        }
    }
    assert(names(w) =~= names(vs).insert(v@.name));
}

/// Pushing a variable of a new name keeps the names distinct.
proof fn lemma_distinct_push(vs: Seq<Variable>, v: Variable)
    requires
        distinct_names(vs),
        !names(vs).contains(v@.name),
    ensures
        distinct_names(vs.push(v)),
{
    let w = vs.push(v);
    assert forall|i: int, j: int|
        0 <= i < w.len() && 0 <= j < w.len() && i != j implies #[trigger] w[i]@.name
            != #[trigger] w[j]@.name by {
        if i < vs.len() {
            assert(w[i] == vs[i]);
        }
        if j < vs.len() {
            assert(w[j] == vs[j]);
        }
    }
}

/// The names of a prefix one longer.
proof fn lemma_names_take(vs: Seq<Variable>, i: int)
    requires
        0 <= i < vs.len(),
    ensures
        names(vs.take(i + 1)) == names(vs.take(i)).insert(vs[i]@.name),
{
    assert(vs.take(i + 1) =~= vs.take(i).push(vs[i]));
    lemma_names_push(vs.take(i), vs[i]);
}

/// Whether some variable of `vs` is named `n`.
pub(crate) fn has_name(vs: &Vec<Variable>, n: &String) -> (r: bool)
    ensures
        r == names(vs@).contains(n@),
{
    let mut i: usize = 0;
    while i < vs.len()
        invariant
            i <= vs.len(),
            forall|k: int| 0 <= k < i ==> vs@[k]@.name != n@,
        decreases vs.len() - i,
    {
        if vs[i].0 == *n {
            assert(vs@[i as int]@.name == n@);
            return true;
        }
        i = i + 1;
    }
    false
}

/// Adds `v` to `vs` unless a variable of that name is already there.
pub(crate) fn add_name(vs: &mut Vec<Variable>, v: Variable)
    requires
        distinct_names(old(vs)@),
    ensures
        distinct_names(final(vs)@),
        names(final(vs)@) == names(old(vs)@).insert(v@.name),
{
    if !has_name(vs, &v.0) {
        proof {
            lemma_names_push(vs@, v);
            lemma_distinct_push(vs@, v);
        }
        vs.push(v);
    } else {
        assert(names(vs@) =~= names(vs@).insert(v@.name));
    }
}

/// Adds every variable of `src` to `dst`, skipping names already there.
pub(crate) fn union_into(dst: &mut Vec<Variable>, src: Vec<Variable>)
    requires
        distinct_names(old(dst)@),
    ensures
        distinct_names(final(dst)@),
        names(final(dst)@) == names(old(dst)@).union(names(src@)),
{
    let ghost pre = dst@;
    let mut i: usize = 0;
    assert(names(src@.take(0)) =~= Set::empty());
    assert(names(dst@) =~= names(pre).union(names(src@.take(0))));
    while i < src.len()
        invariant
            i <= src.len(),
            distinct_names(dst@),
            names(dst@) == names(pre).union(names(src@.take(i as int))),
        decreases src.len() - i,
    {
        proof {
            lemma_names_take(src@, i as int);
        }
        add_name(dst, src[i].clone());
        assert(names(dst@) =~= names(pre).union(names(src@.take(i + 1))));
        i = i + 1;
    }
    assert(src@.take(src@.len() as int) =~= src@);
}

/// Keeps the variables of `vs` whose name is not `n`.
fn remove_name(vs: Vec<Variable>, n: &String) -> (r: Vec<Variable>)
    requires
        distinct_names(vs@),
    ensures
        distinct_names(r@),
        names(r@) == names(vs@).remove(n@),
{
    let mut r: Vec<Variable> = Vec::new();
    let mut i: usize = 0;
    assert(names(vs@.take(0)) =~= Set::empty());
    assert(names(r@) =~= Set::empty());
    while i < vs.len()
        invariant
            i <= vs.len(),
            distinct_names(vs@),
            distinct_names(r@),
            names(r@) == names(vs@.take(i as int)).remove(n@),
        decreases vs.len() - i,
    {
        proof {
            lemma_names_take(vs@, i as int);
        }
        if !(vs[i].0 == *n) {
            let v = vs[i].clone();
            proof {
                let t = vs@.take(i as int);
                if names(t).contains(v@.name) {
                    let k = choose|k: int| 0 <= k < t.len() && #[trigger] t[k]@.name == v@.name;
                    assert(t[k] == vs@[k]);
                }
                lemma_names_push(r@, v);
                lemma_distinct_push(r@, v);
            }
            r.push(v);
        }
        assert(names(r@) =~= names(vs@.take(i + 1)).remove(n@));
        i = i + 1;
    }
    assert(vs@.take(vs@.len() as int) =~= vs@);
    r
}

impl Expression {
    /// Every variable of the expression, binders included, each name once.
    pub fn variables(&self) -> (r: Vec<Variable>)
        ensures
            distinct_names(r@),
            names(r@) == all_vars(self@),
        decreases self,
    {
        match self {
            Expression::Var(v) => {
                let mut r: Vec<Variable> = Vec::new();
                add_name(&mut r, v.clone());
                assert(names(r@) =~= set![v@.name]);
                r
            },
            Expression::Abs(Abstraction(id, body)) => {
                let mut r = body.variables();
                add_name(&mut r, id.clone());
                r
            },
            Expression::App(Application(f, a)) => {
                let mut r = f.variables();
                union_into(&mut r, a.variables());
                r
            },
        }
    }

    /// FV(M): the variables of the expression not bound by a λ, each name once.
    pub fn free_variables(&self) -> (r: Vec<Variable>)
        ensures
            distinct_names(r@),
            names(r@) == free_vars(self@),
        decreases self,
    {
        match self {
            Expression::Var(v) => {
                let mut r: Vec<Variable> = Vec::new();
                add_name(&mut r, v.clone());
                assert(names(r@) =~= set![v@.name]);
                r
            },
            Expression::Abs(Abstraction(id, body)) => remove_name(body.free_variables(), &id.0),
            Expression::App(Application(f, a)) => {
                let mut r = f.free_variables();
                union_into(&mut r, a.free_variables());
                r
            },
        }
    }
}

} // verus!
