//! The term data type and its model.
use vstd::prelude::*;

verus! {

/// The model of a variable: its name and its optional type annotation.
pub struct Ident {
    pub name: Seq<char>,
    pub ty: Option<Seq<char>>,
}

/// The model of a term.
pub enum Term {
    Var(Ident),
    Abs(Ident, Box<Term>),
    App(Box<Term>, Box<Term>),
}

/// A potentially free variable: a name and an optional type annotation.
///
/// Two variables are equal when their names are equal; the annotation is
/// decoration only.
#[derive(Debug)]
pub struct Variable(pub String, pub Option<String>);

/// An abstraction over a bound variable.
#[derive(Debug, PartialEq, Eq)]
pub struct Abstraction(pub Variable, pub Box<Expression>);

/// An application of two expressions.
#[derive(Debug, PartialEq, Eq)]
pub struct Application(pub Box<Expression>, pub Box<Expression>);

/// A λ-expression: a variable, an abstraction or an application.
#[derive(Debug, PartialEq, Eq)]
pub enum Expression {
    Var(Variable),
    Abs(Abstraction),
    App(Application),
}

/// The model of an optional annotation.
pub open spec fn opt_string(o: Option<String>) -> Option<Seq<char>> {
    match o {
        Some(s) => Some(s@),
        None => None,
    }
}

impl View for Variable {
    type V = Ident;

    open spec fn view(&self) -> Ident {
        Ident { name: self.0@, ty: opt_string(self.1) }
    }
}

/// The model of an expression.
pub open spec fn term_of(e: Expression) -> Term
    decreases e,
{
    match e {
        Expression::Var(v) => Term::Var(v@),
        Expression::Abs(Abstraction(id, body)) => Term::Abs(id@, Box::new(term_of(*body))),
        Expression::App(Application(f, a)) => Term::App(
            Box::new(term_of(*f)),
            Box::new(term_of(*a)),
        ),
    }
}

/// The model of an optional expression.
pub open spec fn opt_term(r: Option<Expression>) -> Option<Term> {
    match r {
        Some(e) => Some(e@),
        None => None,
    }
}

impl View for Expression {
    type V = Term;

    open spec fn view(&self) -> Term {
        term_of(*self)
    }
}

impl PartialEq for Variable {
    fn eq(&self, other: &Variable) -> (r: bool) {
        self.0 == other.0
    }
}

impl Eq for Variable {
}

impl vstd::std_specs::cmp::PartialEqSpecImpl for Variable {
    open spec fn obeys_eq_spec() -> bool {
        true
    }

    open spec fn eq_spec(&self, other: &Variable) -> bool {
        self.0@ == other.0@
    }
}

impl Clone for Variable {
    fn clone(&self) -> (r: Self)
        ensures
            r == *self,
    {
        let ty = match &self.1 {
            Some(t) => Some(t.clone()),
            None => None,
        };
        Variable(self.0.clone(), ty)
    }
}

impl Clone for Expression {
    fn clone(&self) -> (r: Self)
        ensures
            r == *self,
        decreases self,
    {
        match self {
            Expression::Var(v) => Expression::Var(v.clone()),
            Expression::Abs(Abstraction(id, body)) => {
                let b: &Expression = body;
                Expression::Abs(Abstraction(id.clone(), Box::new(b.clone())))
            },
            Expression::App(Application(f, a)) => {
                let f: &Expression = f;
                let a: &Expression = a;
                Expression::App(Application(Box::new(f.clone()), Box::new(a.clone())))
            },
        }
    }
}

} // verus!
