//! Untyped λ-calculus terms: free-variable analysis, capture-avoiding
//! substitution and a family of reduction strategies, with every function
//! stated against a mathematical model of terms.
pub mod term;
pub mod free;
pub mod subst;
pub mod normal;
pub mod env;
pub mod curry;
pub mod laws;
pub mod show;
pub mod parse;
pub mod round_trip;
pub mod encode;

pub use normal::{ReductionBudgetExceeded, Strategy};
pub use parse::{ExpressionParser, ParseError};
pub use term::{Abstraction, Application, Expression, Ident, Term, Variable};
