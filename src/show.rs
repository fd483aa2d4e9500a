//! The fully parenthesised text of a term.
use vstd::prelude::*;

use crate::term::{Abstraction, Application, Expression, Ident, Term, Variable};

verus! {

/// A variable's text: its name, then `:` and its annotation if it has one.
pub open spec fn show_ident(v: Ident) -> Seq<char> {
    match v.ty {
        Some(ty) => v.name + seq![':'] + ty,
        None => v.name,
    }
}

/// A term's text: `x`, `(λx.M)` and `(M N)`.
pub open spec fn show(t: Term) -> Seq<char>
    decreases t,
{
    match t {
        Term::Var(v) => show_ident(v),
        Term::Abs(id, body) => seq!['(', 'λ'] + show_ident(id) + seq!['.'] + show(*body) + seq![')'],
        Term::App(f, a) => seq!['('] + show(*f) + seq![' '] + show(*a) + seq![')'],
    }
}

impl Variable {
    /// Appends this variable's text to `out`.
    fn write_to(&self, out: &mut String)
        ensures
            final(out)@ == old(out)@ + show_ident(self@),
    {
        out.append(self.0.as_str());
        match &self.1 {
            Some(ty) => {
                proof {
                    reveal_strlit(":");
                }
                out.append(":");
                out.append(ty.as_str());
            },
            None => {},
        }
        assert(final(out)@ =~= old(out)@ + show_ident(self@));
    }

    /// The text of this variable: `x`, or `x:T` where it is annotated.
    pub fn to_string(&self) -> (r: String)
        ensures
            r@ == show_ident(self@),
    {
        let mut out = String::new();
        self.write_to(&mut out);
        assert(out@ =~= show_ident(self@));
        out
    }
}

impl Expression {
    /// Appends this expression's text to `out`.
    fn write_to(&self, out: &mut String)
        ensures
            final(out)@ == old(out)@ + show(self@),
        decreases self,
    {
        proof {
            reveal_strlit("(λ");
            reveal_strlit(".");
            reveal_strlit(")");
            reveal_strlit("(");
            reveal_strlit(" ");
        }
        match self {
            Expression::Var(v) => {
                v.write_to(out);
            },
            Expression::Abs(Abstraction(id, body)) => {
                out.append("(λ");
                id.write_to(out);
                out.append(".");
                body.write_to(out);
                out.append(")");
                assert(final(out)@ =~= old(out)@ + show(self@));
            },
            Expression::App(Application(f, a)) => {
                out.append("(");
                f.write_to(out);
                out.append(" ");
                a.write_to(out);
                out.append(")");
                assert(final(out)@ =~= old(out)@ + show(self@));
            },
        }
    }

    /// The fully parenthesised text of this expression: a variable as its
    /// name, `λx.M` as `(λx.M)` and an application as `(M N)`.
    pub fn to_string(&self) -> (r: String)
        ensures
            r@ == show(self@),
    {
        let mut out = String::new();
        self.write_to(&mut out);
        assert(out@ =~= show(self@));
        out
    }
}

} // verus!
