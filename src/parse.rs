//! Reading λ-expressions from text.
//!
//! The grammar: a term is one or more items side by side, applied left to
//! right. An item is a variable (`x`, or `x:T` with an annotation), a term
//! in parentheses, or an abstraction: `λ` or `\`, one or more variables, a
//! `.`, and a term that reaches as far right as it can. Spaces, tabs and
//! line breaks separate items.
use vstd::prelude::*;

use crate::term::{opt_term, Abstraction, Application, Expression, Ident, Term, Variable};

verus! {

pub open spec fn is_space(c: char) -> bool {
    c == ' ' || c == '\t' || c == '\n' || c == '\r'
}

/// A character that can stand in a name.
pub open spec fn is_name_char(c: char) -> bool {
    !is_space(c) && c != '(' && c != ')' && c != '.' && c != '\\' && c != 'λ' && c != ':'
}

/// The first position at or after `p` that holds no space.
pub open spec fn skip_spaces(s: Seq<char>, p: int) -> int
    decreases s.len() - p,
{
    if 0 <= p < s.len() && is_space(s[p]) {
        skip_spaces(s, p + 1)
    } else {
        p
    }
}

/// The first position at or after `p` that holds no name character.
pub open spec fn name_end(s: Seq<char>, p: int) -> int
    decreases s.len() - p,
{
    if 0 <= p < s.len() && is_name_char(s[p]) {
        name_end(s, p + 1)
    } else {
        p
    }
}

/// A variable at `p`, and the position after it.
pub open spec fn parse_ident(s: Seq<char>, p: int) -> Option<(Ident, int)> {
    let q = name_end(s, p);
    if q <= p {
        None
    } else if q < s.len() && s[q] == ':' {
        let r = name_end(s, q + 1);
        if r <= q + 1 {
            None
        } else {
            Some((Ident { name: s.subrange(p, q), ty: Some(s.subrange(q + 1, r)) }, r))
        }
    } else {
        Some((Ident { name: s.subrange(p, q), ty: None }, q))
    }
}

/// The variables of a binder from `p` up to its `.`, and the position after the `.`.
pub open spec fn parse_binders(s: Seq<char>, p: int) -> Option<(Seq<Ident>, int)>
    decreases s.len() - p,
{
    let q = skip_spaces(s, p);
    if q < p || q >= s.len() {
        None
    } else if s[q] == '.' {
        Some((Seq::empty(), q + 1))
    } else {
        match parse_ident(s, q) {
            None => None,
            Some((id, r)) => if r <= q || r > s.len() {
                None
            } else {
                match parse_binders(s, r) {
                    None => None,
                    Some((ids, e)) => Some((seq![id] + ids, e)),
                }
            },
        }
    }
}

/// `λids[0]. λids[1]. ... body`.
pub open spec fn abs_over(ids: Seq<Ident>, body: Term) -> Term
    decreases ids.len(),
{
    if ids.len() == 0 {
        body
    } else {
        Term::Abs(ids[0], Box::new(abs_over(ids.drop_first(), body)))
    }
}

/// `f` applied to `t`, or `t` alone where there is no `f`.
pub open spec fn apply_to(f: Option<Term>, t: Term) -> Term {
    match f {
        Some(g) => Term::App(Box::new(g), Box::new(t)),
        None => t,
    }
}

/// The items from `p` on, up to a `)` or the end, applied in turn to
/// `acc`; with the position where they stop.
pub open spec fn parse_seq(s: Seq<char>, p: int, acc: Option<Term>) -> Option<(Term, int)>
    decreases s.len() - p, 2int,
{
    let q = skip_spaces(s, p);
    if q < p || q > s.len() {
        None
    } else if q == s.len() || s[q] == ')' {
        match acc {
            Some(t) => Some((t, q)),
            None => None,
        }
    } else {
        match parse_item(s, q) {
            None => None,
            Some((t, r)) => if r <= q || r > s.len() {
                None
            } else {
                parse_seq(s, r, Some(apply_to(acc, t)))
            },
        }
    }
}

/// The item that starts at `q`, and the position after it.
pub open spec fn parse_item(s: Seq<char>, q: int) -> Option<(Term, int)>
    decreases s.len() - q, 1int,
{
    if q < 0 || q >= s.len() {
        None
    } else if s[q] == '(' {
        match parse_seq(s, q + 1, None) {
            Some((t, r)) => if r < s.len() && s[r] == ')' {
                Some((t, r + 1))
            } else {
                None
            },
            None => None,
        }
    } else if s[q] == 'λ' || s[q] == '\\' {
        match parse_binders(s, q + 1) {
            Some((ids, d)) => if ids.len() == 0 || d <= q || d > s.len() {
                None
            } else {
                match parse_seq(s, d, None) {
                    Some((body, r)) => Some((abs_over(ids, body), r)),
                    None => None,
                }
            },
            None => None,
        }
    } else {
        match parse_ident(s, q) {
            Some((id, r)) => Some((Term::Var(id), r)),
            None => None,
        }
    }
}

/// The term that the whole of `s` spells, if any.
pub open spec fn parse_text(s: Seq<char>) -> Option<Term> {
    match parse_seq(s, 0, None) {
        Some((t, r)) => if r == s.len() {
            Some(t)
        } else {
            None
        },
        None => None,
    }
}

/// The text is not a λ-expression.
#[derive(Debug, Clone, Copy, PartialEq, Eq, Structural)]
pub struct ParseError;

/// A parser for λ-expressions.
#[derive(Debug, Clone, Copy, PartialEq, Eq, Structural)]
pub struct ExpressionParser;

/// The model of an optional item and the position after it.
pub open spec fn opt_item(r: Option<(Expression, usize)>) -> Option<(Term, int)> {
    match r {
        Some((e, p)) => Some((e@, p as int)),
        None => None,
    }
}

/// The models of a sequence of variables.
pub open spec fn idents(vs: Seq<Variable>) -> Seq<Ident> {
    vs.map_values(|v: Variable| v@)
}

fn space(c: char) -> (r: bool)
    ensures
        r == is_space(c),
{
    c == ' ' || c == '\t' || c == '\n' || c == '\r'
}

fn name_char(c: char) -> (r: bool)
    ensures
        r == is_name_char(c),
{
    !space(c) && c != '(' && c != ')' && c != '.' && c != '\\' && c != 'λ' && c != ':'
}

fn chars_of(s: &str) -> (r: Vec<char>)
    ensures
        r@ == s@,
{
    let n = s.unicode_len();
    let mut v: Vec<char> = Vec::new();
    let mut i: usize = 0;
    while i < n
        invariant
            i <= n,
            n == s@.len(),
            v@ == s@.subrange(0, i as int),
        decreases n - i,
    {
        v.push(s.get_char(i));
        i = i + 1;
        assert(v@ =~= s@.subrange(0, i as int));
    }
    assert(v@ =~= s@);
    v
}

fn skip_spaces_from(cs: &Vec<char>, p: usize) -> (r: usize)
    requires
        p <= cs.len(),
    ensures
        r as int == skip_spaces(cs@, p as int),
        p <= r <= cs.len(),
{
    let mut i = p;
    while i < cs.len() && space(cs[i])
        invariant
            p <= i <= cs.len(),
            skip_spaces(cs@, p as int) == skip_spaces(cs@, i as int),
        decreases cs.len() - i,
    {
        i = i + 1;
    }
    i
}

fn name_end_from(cs: &Vec<char>, p: usize) -> (r: usize)
    requires
        p <= cs.len(),
    ensures
        r as int == name_end(cs@, p as int),
        p <= r <= cs.len(),
{
    let mut i = p;
    while i < cs.len() && name_char(cs[i])
        invariant
            p <= i <= cs.len(),
            name_end(cs@, p as int) == name_end(cs@, i as int),
        decreases cs.len() - i,
    {
        i = i + 1;
    }
    i
}

fn ident_at(s: &str, cs: &Vec<char>, p: usize) -> (r: Option<(Variable, usize)>)
    requires
        cs@ == s@,
        p <= cs.len(),
    ensures
        match r {
            Some((v, e)) => parse_ident(cs@, p as int) == Some((v@, e as int)) && e <= cs.len(),
            None => parse_ident(cs@, p as int) is None,
        },
{
    let q = name_end_from(cs, p);
    if q <= p {
        return None;
    }
    let name = s.substring_char(p, q).to_owned();
    if q < cs.len() && cs[q] == ':' {
        let r = name_end_from(cs, q + 1);
        if r <= q + 1 {
            return None;
        }
        let ty = s.substring_char(q + 1, r).to_owned();
        Some((Variable(name, Some(ty)), r))
    } else {
        Some((Variable(name, None), q))
    }
}

fn binders_at(s: &str, cs: &Vec<char>, p: usize) -> (r: Option<(Vec<Variable>, usize)>)
    requires
        cs@ == s@,
        p <= cs.len(),
    ensures
        match r {
            Some((vs, e)) => parse_binders(cs@, p as int) == Some((idents(vs@), e as int)) && e
                <= cs.len(),
            None => parse_binders(cs@, p as int) is None,
        },
    decreases cs.len() - p,
{
    let q = skip_spaces_from(cs, p);
    if q >= cs.len() {
        return None;
    }
    if cs[q] == '.' {
        let ghost e: Seq<Variable> = Seq::empty();
        assert(idents(e) =~= Seq::<Ident>::empty());
        return Some((Vec::new(), q + 1));
    }
    match ident_at(s, cs, q) {
        None => None,
        Some((id, r)) => {
            if r <= q {
                return None;
            }
            match binders_at(s, cs, r) {
                None => None,
                Some((rest, e)) => {
                    let ghost rv = rest@;
                    let ghost idv = id@;
                    let mut vs: Vec<Variable> = Vec::new();
                    vs.push(id);
                    let mut rest = rest;
                    vs.append(&mut rest);
                    assert(idents(vs@) =~= seq![idv] + idents(rv));
                    Some((vs, e))
                },
            }
        },
    }
}

/// Abstracts `body` over each of `ids` in turn.
fn abstract_over(ids: Vec<Variable>, body: Expression) -> (r: Expression)
    ensures
        r@ == abs_over(idents(ids@), body@),
{
    let n = ids.len();
    let mut i: usize = n;
    let mut abs = body;
    let ghost b = body@;
    assert(idents(ids@).subrange(n as int, n as int) =~= Seq::<Ident>::empty());
    while i > 0
        invariant
            i <= n,
            n == ids.len(),
            abs@ == abs_over(idents(ids@).subrange(i as int, n as int), b),
        decreases i,
    {
        let ghost rest = idents(ids@).subrange(i as int, n as int);
        i = i - 1;
        let ghost now = idents(ids@).subrange(i as int, n as int);
        assert(now.drop_first() =~= rest);
        abs = Expression::Abs(Abstraction(ids[i].clone(), Box::new(abs)));
    }
    assert(idents(ids@).subrange(0, n as int) =~= idents(ids@));
    abs
}

fn seq_at(s: &str, cs: &Vec<char>, p: usize, acc: Option<Expression>) -> (r: Option<(Expression, usize)>)
    requires
        cs@ == s@,
        p <= cs.len(),
    ensures
        opt_item(r) == parse_seq(cs@, p as int, opt_term(acc)),
        r matches Some((_, e)) ==> e <= cs.len(),
    decreases cs.len() - p, 2int,
{
    let q = skip_spaces_from(cs, p);
    if q == cs.len() || cs[q] == ')' {
        return match acc {
            Some(t) => Some((t, q)),
            None => None,
        };
    }
    match item_at(s, cs, q) {
        None => None,
        Some((t, r)) => {
            if r <= q {
                return None;
            }
            let ghost tv = t@;
            let next = match acc {
                Some(f) => Expression::App(Application(Box::new(f), Box::new(t))),
                None => t,
            };
            assert(next@ == apply_to(opt_term(acc), tv));
            seq_at(s, cs, r, Some(next))
        },
    }
}

fn item_at(s: &str, cs: &Vec<char>, q: usize) -> (r: Option<(Expression, usize)>)
    requires
        cs@ == s@,
        q <= cs.len(),
    ensures
        opt_item(r) == parse_item(cs@, q as int),
        r matches Some((_, e)) ==> e <= cs.len(),
    decreases cs.len() - q, 1int,
{
    if q >= cs.len() {
        return None;
    }
    if cs[q] == '(' {
        match seq_at(s, cs, q + 1, None) {
            Some((t, r)) => {
                if r < cs.len() && cs[r] == ')' {
                    Some((t, r + 1))
                } else {
                    None
                }
            },
            None => None,
        }
    } else if cs[q] == 'λ' || cs[q] == '\\' {
        match binders_at(s, cs, q + 1) {
            Some((ids, d)) => {
                if ids.len() == 0 || d <= q {
                    return None;
                }
                match seq_at(s, cs, d, None) {
                    Some((body, r)) => Some((abstract_over(ids, body), r)),
                    None => None,
                }
            },
            None => None,
        }
    } else {
        match ident_at(s, cs, q) {
            Some((id, r)) => Some((Expression::Var(id), r)),
            None => None,
        }
    }
}

impl ExpressionParser {
    pub fn new() -> (r: Self) {
        ExpressionParser
    }

    /// Reads the λ-expression that the whole of `input` spells.
    pub fn parse(&self, input: &str) -> (r: Result<Expression, ParseError>)
        ensures
            match r {
                Ok(e) => parse_text(input@) == Some(e@),
                Err(_) => parse_text(input@) is None,
            },
    {
        let cs = chars_of(input);
        match seq_at(input, &cs, 0, None) {
            Some((t, r)) => {
                if r == cs.len() {
                    Ok(t)
                } else {
                    Err(ParseError)
                }
            },
            None => Err(ParseError),
        }
    }
}

} // verus!
