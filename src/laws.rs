//! Properties that relate the functions of the library.
use vstd::prelude::*;

use crate::free::{all_vars, free_vars};
use crate::normal::{
    applicative, call_by_name, call_by_value, eta_body, head_spine, normal_order, reduce, Strategy,
};
use crate::subst::{
    fresh_binder, lemma_free_in_all, lemma_fresh_from, lemma_rename_size, lemma_taken_bound, rename,
    size, subst, taken, taken_bound,
};
use crate::term::{Ident, Term};

verus! {

/// Whether substituting `v` for `x` in `t` meets a binder that it has to
/// rename: a binder other than `x`, reached by the substitution, whose name
/// is free in `v`.
pub open spec fn renames_binder(t: Term, v: Term, x: Seq<char>) -> bool
    decreases t,
{
    match t {
        Term::Var(_) => false,
        Term::App(f, a) => renames_binder(*f, v, x) || renames_binder(*a, v, x),
        Term::Abs(id, body) => id.name != x && (free_vars(v).contains(id.name) || renames_binder(
            *body,
            v,
            x,
        )),
    }
}

/// Substitution for a variable that is not free leaves the term as it is,
/// exactly when no binder on the way has to be renamed.
pub proof fn lemma_substitute_not_free(t: Term, v: Term, x: Seq<char>)
    requires
        !free_vars(t).contains(x),
    ensures
        subst(t, v, x) == t <==> !renames_binder(t, v, x),
    decreases t,
{
    match t {
        Term::Var(_) => {},
        Term::App(f, a) => {
            lemma_substitute_not_free(*f, v, x);
            lemma_substitute_not_free(*a, v, x);
        },
        Term::Abs(id, body) => {
            if id.name != x {
                if free_vars(v).contains(id.name) {
                    let tk = taken(v, *body, x);
                    let bound = taken_bound(v, *body, x);
                    lemma_taken_bound(v, *body, x);
                    lemma_fresh_from(id.name.push('\''), tk, bound);
                    assert(fresh_binder(id, v, *body, x).name.len() > id.name.len());
                } else {
                    lemma_substitute_not_free(*body, v, x);
                }
            }
        },
    }
}

/// `names` with `old` replaced by `new`.
pub open spec fn renamed_in(names: Set<Seq<char>>, old: Seq<char>, new: Seq<char>) -> Set<
    Seq<char>,
> {
    if names.contains(old) {
        names.remove(old).insert(new)
    } else {
        names
    }
}

/// Renaming to a name that `t` does not use renames its free variables and
/// nothing else.
proof fn lemma_rename_free_vars(t: Term, old: Seq<char>, new: Ident)
    requires
        !all_vars(t).contains(new.name),
        old != new.name,
    ensures
        free_vars(rename(t, old, new)) == renamed_in(free_vars(t), old, new.name),
    decreases t,
{
    lemma_free_in_all(t);
    match t {
        Term::Var(v) => {
            assert(free_vars(rename(t, old, new)) =~= renamed_in(free_vars(t), old, new.name));
        },
        Term::Abs(b, body) => {
            lemma_free_in_all(*body);
            lemma_rename_free_vars(*body, old, new);
            assert(free_vars(rename(t, old, new)) =~= renamed_in(free_vars(t), old, new.name));
        },
        Term::App(f, a) => {
            lemma_rename_free_vars(*f, old, new);
            lemma_rename_free_vars(*a, old, new);
            lemma_free_in_all(*f);
            lemma_free_in_all(*a);
            assert(free_vars(rename(t, old, new)) =~= renamed_in(free_vars(t), old, new.name));
        },
    }
}

/// Substitution captures nothing: where `x` is free in `t`, the free
/// variables of `t[x := v]` are those of `t` without `x`, together with
/// those of `v`; where it is not, they are those of `t`.
pub proof fn lemma_substitute_free_variables(t: Term, v: Term, x: Seq<char>)
    ensures
        free_vars(subst(t, v, x)) == if free_vars(t).contains(x) {
            free_vars(t).remove(x).union(free_vars(v))
        } else {
            free_vars(t)
        },
    decreases size(t),
{
    let fvt = free_vars(t);
    match t {
        Term::Var(w) => {
            if w.name == x {
                assert(fvt.remove(x).union(free_vars(v)) =~= free_vars(v));
            }
        },
        Term::App(f, a) => {
            lemma_substitute_free_variables(*f, v, x);
            lemma_substitute_free_variables(*a, v, x);
            let e = if fvt.contains(x) {
                fvt.remove(x).union(free_vars(v))
            } else {
                fvt
            };
            assert(free_vars(subst(t, v, x)) =~= e);
        },
        Term::Abs(id, body) => {
            if id.name == x {
            } else if !free_vars(v).contains(id.name) {
                lemma_substitute_free_variables(*body, v, x);
                let e = if fvt.contains(x) {
                    fvt.remove(x).union(free_vars(v))
                } else {
                    fvt
                };
                assert(free_vars(subst(t, v, x)) =~= e);
            } else {
                let fresh = fresh_binder(id, v, *body, x);
                let renamed = rename(*body, id.name, fresh);
                lemma_taken_bound(v, *body, x);
                lemma_fresh_from(
                    id.name.push('\''),
                    taken(v, *body, x),
                    taken_bound(v, *body, x),
                );
                assert(fresh.name.len() > id.name.len());
                lemma_rename_size(*body, id.name, fresh);
                lemma_rename_free_vars(*body, id.name, fresh);
                lemma_free_in_all(*body);
                lemma_substitute_free_variables(renamed, v, x);
                let e = if fvt.contains(x) {
                    fvt.remove(x).union(free_vars(v))
                } else {
                    fvt
                };
                assert(free_vars(subst(t, v, x)) =~= e);
            }
        },
    }
}

/// Binding a variable takes exactly its name out of the free variables.
pub proof fn lemma_free_variables_of_abstraction(x: Ident, body: Term)
    ensures
        free_vars(Term::Abs(x, Box::new(body))) == free_vars(body).remove(x.name),
{
}

/// Whether `t` holds no β-redex, and, where `eta` holds, no η-redex.
pub open spec fn is_normal(t: Term, eta: bool) -> bool
    decreases t,
{
    match t {
        Term::Var(_) => true,
        Term::Abs(id, body) => !(eta && eta_body(id, *body) is Some) && is_normal(*body, eta),
        Term::App(f, a) => !(*f is Abs) && is_normal(*f, eta) && is_normal(*a, eta),
    }
}

/// The height of `t`: a budget above it lets a strategy walk all of `t`.
pub open spec fn depth(t: Term) -> nat
    decreases t,
{
    match t {
        Term::Var(_) => 0,
        Term::Abs(_, body) => 1 + depth(*body),
        Term::App(f, a) => 1 + if depth(*f) >= depth(*a) {
            depth(*f)
        } else {
            depth(*a)
        },
    }
}

/// Whether `s` performs η-reduction.
pub open spec fn eta_of(s: Strategy) -> bool {
    match s {
        Strategy::Applicative(eta) => eta,
        Strategy::Normal(eta) => eta,
        Strategy::HeadSpine(eta) => eta,
        _ => false,
    }
}

proof fn lemma_normal_without_eta(t: Term, eta: bool)
    requires
        is_normal(t, eta),
    ensures
        is_normal(t, false),
    decreases t,
{
    match t {
        Term::Var(_) => {},
        Term::Abs(_, body) => lemma_normal_without_eta(*body, eta),
        Term::App(f, a) => {
            lemma_normal_without_eta(*f, eta);
            lemma_normal_without_eta(*a, eta);
        },
    }
}

proof fn lemma_call_by_name_fixed(t: Term, fuel: nat)
    requires
        is_normal(t, false),
        fuel > depth(t),
    ensures
        call_by_name(t, fuel) == Some(t),
    decreases t,
{
    if let Term::App(f, a) = t {
        lemma_call_by_name_fixed(*f, (fuel - 1) as nat);
    }
}

proof fn lemma_call_by_value_fixed(t: Term, fuel: nat)
    requires
        is_normal(t, false),
        fuel > depth(t),
    ensures
        call_by_value(t, fuel) == Some(t),
    decreases t,
{
    if let Term::App(f, a) = t {
        lemma_call_by_value_fixed(*f, (fuel - 1) as nat);
        lemma_call_by_value_fixed(*a, (fuel - 1) as nat);
    }
}

proof fn lemma_normal_order_fixed(t: Term, eta: bool, fuel: nat)
    requires
        is_normal(t, eta),
        fuel > depth(t),
    ensures
        normal_order(t, eta, fuel) == Some(t),
    decreases t,
{
    match t {
        Term::Var(_) => {},
        Term::Abs(_, body) => lemma_normal_order_fixed(*body, eta, (fuel - 1) as nat),
        Term::App(f, a) => {
            lemma_normal_without_eta(*f, eta);
            lemma_call_by_name_fixed(*f, (fuel - 1) as nat);
            lemma_normal_order_fixed(*f, eta, (fuel - 1) as nat);
            lemma_normal_order_fixed(*a, eta, (fuel - 1) as nat);
        },
    }
}

proof fn lemma_applicative_fixed(t: Term, eta: bool, fuel: nat)
    requires
        is_normal(t, eta),
        fuel > depth(t),
    ensures
        applicative(t, eta, fuel) == Some(t),
    decreases t,
{
    match t {
        Term::Var(_) => {},
        Term::Abs(_, body) => lemma_applicative_fixed(*body, eta, (fuel - 1) as nat),
        Term::App(f, a) => {
            lemma_applicative_fixed(*f, eta, (fuel - 1) as nat);
            lemma_applicative_fixed(*a, eta, (fuel - 1) as nat);
        },
    }
}

proof fn lemma_head_spine_fixed(t: Term, eta: bool, fuel: nat)
    requires
        is_normal(t, eta),
        fuel > depth(t),
    ensures
        head_spine(t, eta, fuel) == Some(t),
    decreases t,
{
    match t {
        Term::Var(_) => {},
        Term::Abs(_, body) => lemma_head_spine_fixed(*body, eta, (fuel - 1) as nat),
        Term::App(f, a) => {
            lemma_normal_without_eta(*f, eta);
            lemma_call_by_name_fixed(*f, (fuel - 1) as nat);
        },
    }
}

/// Every strategy gives back a term that is already in normal form (for
/// the strategy's own η setting) unchanged, once the budget exceeds the
/// term's height: on such terms all strategies agree.
pub proof fn lemma_normal_form_is_fixed(s: Strategy, t: Term, fuel: nat)
    requires
        is_normal(t, eta_of(s)),
        fuel > depth(t),
    ensures
        reduce(s, t, fuel) == Some(t),
{
    lemma_normal_without_eta(t, eta_of(s));
    match s {
        Strategy::CallByName => lemma_call_by_name_fixed(t, fuel),
        Strategy::Normal(eta) => lemma_normal_order_fixed(t, eta, fuel),
        Strategy::CallByValue => lemma_call_by_value_fixed(t, fuel),
        Strategy::Applicative(eta) => lemma_applicative_fixed(t, eta, fuel),
        Strategy::HeadSpine(eta) => lemma_head_spine_fixed(t, eta, fuel),
    }
}

proof fn lemma_call_by_name_budget(t: Term, fuel: nat, more: nat)
    requires
        call_by_name(t, fuel) is Some,
        fuel <= more,
    ensures
        call_by_name(t, more) == call_by_name(t, fuel),
    decreases fuel,
{
    if let Term::App(f, a) = t {
        lemma_call_by_name_budget(*f, (fuel - 1) as nat, (more - 1) as nat);
        if let Some(Term::Abs(id, body)) = call_by_name(*f, (fuel - 1) as nat) {
            lemma_call_by_name_budget(
                subst(*body, *a, id.name),
                (fuel - 1) as nat,
                (more - 1) as nat,
            );
        }
    }
}

proof fn lemma_normal_order_budget(t: Term, eta: bool, fuel: nat, more: nat)
    requires
        normal_order(t, eta, fuel) is Some,
        fuel <= more,
    ensures
        normal_order(t, eta, more) == normal_order(t, eta, fuel),
    decreases fuel,
{
    let k = (fuel - 1) as nat;
    let m = (more - 1) as nat;
    match t {
        Term::Var(_) => {},
        Term::Abs(id, body) => {
            if eta && eta_body(id, *body) is Some {
                lemma_normal_order_budget(eta_body(id, *body)->Some_0, eta, k, m);
            } else {
                lemma_normal_order_budget(*body, eta, k, m);
            }
        },
        Term::App(f, a) => {
            lemma_call_by_name_budget(*f, k, m);
            match call_by_name(*f, k) {
                Some(Term::Abs(id, body)) => {
                    lemma_normal_order_budget(subst(*body, *a, id.name), eta, k, m);
                },
                Some(g) => {
                    lemma_normal_order_budget(g, eta, k, m);
                    lemma_normal_order_budget(*a, eta, k, m);
                },
                None => {},
            }
        },
    }
}

proof fn lemma_call_by_value_budget(t: Term, fuel: nat, more: nat)
    requires
        call_by_value(t, fuel) is Some,
        fuel <= more,
    ensures
        call_by_value(t, more) == call_by_value(t, fuel),
    decreases fuel,
{
    if let Term::App(f, a) = t {
        lemma_call_by_value_budget(*f, (fuel - 1) as nat, (more - 1) as nat);
        lemma_call_by_value_budget(*a, (fuel - 1) as nat, (more - 1) as nat);
    }
}

proof fn lemma_applicative_budget(t: Term, eta: bool, fuel: nat, more: nat)
    requires
        applicative(t, eta, fuel) is Some,
        fuel <= more,
    ensures
        applicative(t, eta, more) == applicative(t, eta, fuel),
    decreases fuel,
{
    let k = (fuel - 1) as nat;
    let m = (more - 1) as nat;
    match t {
        Term::Var(_) => {},
        Term::Abs(id, body) => {
            if eta && eta_body(id, *body) is Some {
                lemma_applicative_budget(eta_body(id, *body)->Some_0, eta, k, m);
            } else {
                lemma_applicative_budget(*body, eta, k, m);
            }
        },
        Term::App(f, a) => {
            lemma_applicative_budget(*f, eta, k, m);
            lemma_applicative_budget(*a, eta, k, m);
            if let (Some(Term::Abs(id, body)), Some(a2)) = (
                applicative(*f, eta, k),
                applicative(*a, eta, k),
            ) {
                lemma_applicative_budget(subst(*body, a2, id.name), eta, k, m);
            }
        },
    }
}

proof fn lemma_head_spine_budget(t: Term, eta: bool, fuel: nat, more: nat)
    requires
        head_spine(t, eta, fuel) is Some,
        fuel <= more,
    ensures
        head_spine(t, eta, more) == head_spine(t, eta, fuel),
    decreases fuel,
{
    let k = (fuel - 1) as nat;
    let m = (more - 1) as nat;
    match t {
        Term::Var(_) => {},
        Term::Abs(id, body) => {
            if eta && eta_body(id, *body) is Some {
                lemma_head_spine_budget(eta_body(id, *body)->Some_0, eta, k, m);
            } else {
                lemma_head_spine_budget(*body, eta, k, m);
            }
        },
        Term::App(f, a) => {
            lemma_call_by_name_budget(*f, k, m);
        },
    }
}

/// A larger budget never changes a finished reduction: once a strategy
/// returns a term within some budget, it returns the same term within any
/// larger one.
pub proof fn lemma_budget_monotone(s: Strategy, t: Term, fuel: nat, more: nat)
    requires
        reduce(s, t, fuel) is Some,
        fuel <= more,
    ensures
        reduce(s, t, more) == reduce(s, t, fuel),
{
    match s {
        Strategy::CallByName => lemma_call_by_name_budget(t, fuel, more),
        Strategy::Normal(eta) => lemma_normal_order_budget(t, eta, fuel, more),
        Strategy::CallByValue => lemma_call_by_value_budget(t, fuel, more),
        Strategy::Applicative(eta) => lemma_applicative_budget(t, eta, fuel, more),
        Strategy::HeadSpine(eta) => lemma_head_spine_budget(t, eta, fuel, more),
    }
}

/// A variable applied to zero or more arguments: no reduction of its head
/// can make it an abstraction.
pub open spec fn is_neutral(t: Term) -> bool
    decreases t,
{
    match t {
        Term::Var(_) => true,
        Term::App(f, _) => is_neutral(*f),
        Term::Abs(_, _) => false,
    }
}

/// Weak head normal form: an abstraction, or a neutral term.
pub open spec fn is_whnf(t: Term) -> bool {
    t is Abs || is_neutral(t)
}

proof fn lemma_call_by_name_whnf(t: Term, fuel: nat)
    requires
        call_by_name(t, fuel) is Some,
    ensures
        is_whnf(call_by_name(t, fuel)->Some_0),
    decreases fuel,
{
    if let Term::App(f, a) = t {
        let k = (fuel - 1) as nat;
        lemma_call_by_name_whnf(*f, k);
        if let Some(Term::Abs(id, body)) = call_by_name(*f, k) {
            lemma_call_by_name_whnf(subst(*body, *a, id.name), k);
        }
    }
}

proof fn lemma_call_by_name_neutral(t: Term, fuel: nat)
    requires
        is_neutral(t),
        call_by_name(t, fuel) is Some,
    ensures
        is_neutral(call_by_name(t, fuel)->Some_0),
    decreases fuel,
{
    if let Term::App(f, a) = t {
        lemma_call_by_name_neutral(*f, (fuel - 1) as nat);
    }
}

proof fn lemma_normal_order_neutral(t: Term, eta: bool, fuel: nat)
    requires
        is_neutral(t),
        normal_order(t, eta, fuel) is Some,
    ensures
        is_neutral(normal_order(t, eta, fuel)->Some_0),
    decreases fuel,
{
    if let Term::App(f, a) = t {
        let k = (fuel - 1) as nat;
        lemma_call_by_name_neutral(*f, k);
        lemma_normal_order_neutral(call_by_name(*f, k)->Some_0, eta, k);
    }
}

proof fn lemma_normal_order_beta_normal(t: Term, eta: bool, fuel: nat)
    requires
        normal_order(t, eta, fuel) is Some,
    ensures
        is_normal(normal_order(t, eta, fuel)->Some_0, false),
    decreases fuel,
{
    let k = (fuel - 1) as nat;
    match t {
        Term::Var(_) => {},
        Term::Abs(id, body) => {
            if eta && eta_body(id, *body) is Some {
                lemma_normal_order_beta_normal(eta_body(id, *body)->Some_0, eta, k);
            } else {
                lemma_normal_order_beta_normal(*body, eta, k);
            }
        },
        Term::App(f, a) => {
            lemma_call_by_name_whnf(*f, k);
            match call_by_name(*f, k) {
                Some(Term::Abs(id, body)) => {
                    lemma_normal_order_beta_normal(subst(*body, *a, id.name), eta, k);
                },
                Some(g) => {
                    lemma_normal_order_neutral(g, eta, k);
                    lemma_normal_order_beta_normal(g, eta, k);
                    lemma_normal_order_beta_normal(*a, eta, k);
                },
                None => {},
            }
        },
    }
}

proof fn lemma_applicative_beta_normal(t: Term, eta: bool, fuel: nat)
    requires
        applicative(t, eta, fuel) is Some,
    ensures
        is_normal(applicative(t, eta, fuel)->Some_0, false),
    decreases fuel,
{
    let k = (fuel - 1) as nat;
    match t {
        Term::Var(_) => {},
        Term::Abs(id, body) => {
            if eta && eta_body(id, *body) is Some {
                lemma_applicative_beta_normal(eta_body(id, *body)->Some_0, eta, k);
            } else {
                lemma_applicative_beta_normal(*body, eta, k);
            }
        },
        Term::App(f, a) => {
            lemma_applicative_beta_normal(*f, eta, k);
            lemma_applicative_beta_normal(*a, eta, k);
            if let (Some(Term::Abs(id, body)), Some(a2)) = (
                applicative(*f, eta, k),
                applicative(*a, eta, k),
            ) {
                lemma_applicative_beta_normal(subst(*body, a2, id.name), eta, k);
            }
        },
    }
}

/// The full strategies, normal order and applicative order, return terms
/// without a β-redex anywhere, when they return at all.
pub proof fn lemma_full_strategies_give_beta_normal_forms(s: Strategy, t: Term, fuel: nat)
    requires
        s is Normal || s is Applicative,
        reduce(s, t, fuel) is Some,
    ensures
        is_normal(reduce(s, t, fuel)->Some_0, false),
{
    match s {
        Strategy::Normal(eta) => lemma_normal_order_beta_normal(t, eta, fuel),
        Strategy::Applicative(eta) => lemma_applicative_beta_normal(t, eta, fuel),
        _ => {},
    }
}

/// Call-by-name returns a term in weak head normal form, when it returns
/// at all.
pub proof fn lemma_call_by_name_gives_whnf(t: Term, fuel: nat)
    requires
        reduce(Strategy::CallByName, t, fuel) is Some,
    ensures
        is_whnf(reduce(Strategy::CallByName, t, fuel)->Some_0),
{
    lemma_call_by_name_whnf(t, fuel);
}

} // verus!
