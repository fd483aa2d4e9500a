//! Reading back the text of a term gives the term.
use vstd::prelude::*;

use crate::parse::{
    abs_over, apply_to, is_name_char, name_end, parse_binders, parse_ident, parse_item,
    parse_seq, parse_text, skip_spaces,
};
use crate::show::{show, show_ident};
use crate::term::{Ident, Term};

verus! {

/// A name that the parser reads back whole: not empty, of name characters.
pub open spec fn valid_name(n: Seq<char>) -> bool {
    n.len() > 0 && forall|i: int| 0 <= i < n.len() ==> is_name_char(#[trigger] n[i])
}

pub open spec fn valid_ident(v: Ident) -> bool {
    valid_name(v.name) && match v.ty {
        Some(ty) => valid_name(ty),
        None => true,
    }
}

/// Every variable of `t`, binders included, has a valid name and annotation.
pub open spec fn valid_term(t: Term) -> bool
    decreases t,
{
    match t {
        Term::Var(v) => valid_ident(v),
        Term::Abs(id, body) => valid_ident(id) && valid_term(*body),
        Term::App(f, a) => valid_term(*f) && valid_term(*a),
    }
}

/// `w` stands in `s` from `p` on.
pub open spec fn stands_at(s: Seq<char>, p: int, w: Seq<char>) -> bool {
    0 <= p && p + w.len() <= s.len() && s.subrange(p, p + w.len()) == w
}

/// What may follow the text of an item: the end, a `)` or a space.
pub open spec fn item_follow(s: Seq<char>, e: int) -> bool {
    e == s.len() || s[e] == ')' || s[e] == ' '
}

proof fn lemma_part(s: Seq<char>, p: int, w: Seq<char>, i: int, j: int)
    requires
        stands_at(s, p, w),
        0 <= i <= j <= w.len(),
    ensures
        stands_at(s, p + i, w.subrange(i, j)),
{
    assert(s.subrange(p + i, p + j) =~= w.subrange(i, j)) by {
        assert forall|k: int| 0 <= k < j - i implies s.subrange(p + i, p + j)[k] == w.subrange(
            i,
            j,
        )[k] by {
            assert(s.subrange(p, p + w.len())[i + k] == s[p + i + k]);
        }
    }
}

proof fn lemma_char(s: Seq<char>, p: int, w: Seq<char>, i: int)
    requires
        stands_at(s, p, w),
        0 <= i < w.len(),
    ensures
        s[p + i] == w[i],
{
    assert(s.subrange(p, p + w.len())[i] == s[p + i]);
}

proof fn lemma_name_end(s: Seq<char>, p: int, n: Seq<char>)
    requires
        stands_at(s, p, n),
        forall|i: int| 0 <= i < n.len() ==> is_name_char(#[trigger] n[i]),
        p + n.len() == s.len() || !is_name_char(s[p + n.len()]),
    ensures
        name_end(s, p) == p + n.len(),
    decreases n.len(),
{
    if n.len() > 0 {
        lemma_char(s, p, n, 0);
        lemma_part(s, p, n, 1, n.len() as int);
        let m = n.subrange(1, n.len() as int);
        assert forall|i: int| 0 <= i < m.len() implies is_name_char(#[trigger] m[i]) by {
            assert(m[i] == n[i + 1]);
        }
        lemma_name_end(s, p + 1, m);
    }
}

proof fn lemma_first_char(t: Term)
    requires
        valid_term(t),
    ensures
        show(t).len() > 0,
        show(t)[0] == '(' || is_name_char(show(t)[0]),
{
    match t {
        Term::Var(v) => {
            assert(show_ident(v)[0] == v.name[0]);
        },
        _ => {},
    }
}

proof fn lemma_ident(s: Seq<char>, p: int, v: Ident)
    requires
        valid_ident(v),
        stands_at(s, p, show_ident(v)),
        p + show_ident(v).len() == s.len() || (!is_name_char(s[p + show_ident(v).len()]) && s[p
            + show_ident(v).len()] != ':'),
    ensures
        parse_ident(s, p) == Some((v, p + show_ident(v).len())),
{
    let w = show_ident(v);
    let q = p + v.name.len();
    assert(w.subrange(0, v.name.len() as int) =~= v.name);
    lemma_part(s, p, w, 0, v.name.len() as int);
    match v.ty {
        None => {
            lemma_name_end(s, p, v.name);
            assert(s.subrange(p, q) =~= v.name);
        },
        Some(ty) => {
            lemma_char(s, p, w, v.name.len() as int);
            lemma_name_end(s, p, v.name);
            assert(s.subrange(p, q) =~= v.name);
            assert(w.subrange(v.name.len() as int + 1, w.len() as int) =~= ty);
            lemma_part(s, p, w, v.name.len() as int + 1, w.len() as int);
            lemma_name_end(s, q + 1, ty);
            assert(s.subrange(q + 1, q + 1 + ty.len()) =~= ty);
        },
    }
}

proof fn lemma_seq(s: Seq<char>, p: int, t: Term)
    requires
        valid_term(t),
        stands_at(s, p, show(t)),
        p + show(t).len() == s.len() || s[p + show(t).len()] == ')',
    ensures
        parse_seq(s, p, None) == Some((t, p + show(t).len())),
    decreases t, 2int,
{
    let e = p + show(t).len();
    lemma_first_char(t);
    lemma_char(s, p, show(t), 0);
    assert(skip_spaces(s, p) == p);
    lemma_item(s, p, t);
    assert(skip_spaces(s, e) == e);
    assert(apply_to(None, t) == t);
    assert(parse_seq(s, e, Some(t)) == Some((t, e)));
}

proof fn lemma_item(s: Seq<char>, p: int, t: Term)
    requires
        valid_term(t),
        stands_at(s, p, show(t)),
        item_follow(s, p + show(t).len()),
    ensures
        parse_item(s, p) == Some((t, p + show(t).len())),
    decreases t, 1int,
{
    match t {
        Term::Var(v) => {
            lemma_first_char(t);
            lemma_char(s, p, show(t), 0);
            lemma_ident(s, p, v);
        },
        Term::Abs(id, body) => lemma_item_abs(s, p, id, *body),
        Term::App(f, a) => lemma_item_app(s, p, *f, *a),
    }
}

proof fn lemma_item_abs(s: Seq<char>, p: int, id: Ident, body: Term)
    requires
        valid_term(Term::Abs(id, Box::new(body))),
        stands_at(s, p, show(Term::Abs(id, Box::new(body)))),
    ensures
        parse_item(s, p) == Some((
            Term::Abs(id, Box::new(body)),
            p + show(Term::Abs(id, Box::new(body))).len(),
        )),
    decreases Term::Abs(id, Box::new(body)), 0int,
{
    let t = Term::Abs(id, Box::new(body));
    let w = show(t);
    let body = Box::new(body);
    let si = show_ident(id);
    let sb = show(*body);
    let li: int = si.len() as int;
    let lb: int = sb.len() as int;
    let r = p + 2 + li;
    let d = r + 1;
    let eb = d + lb;
    assert(w == seq!['(', 'λ'] + si + seq!['.'] + sb + seq![')']);
    assert(w.len() == li + lb + 4);
    assert(w[0] == '(');
    assert(w[1] == 'λ');
    assert(w[2 + li] == '.');
    assert(w[w.len() - 1] == ')');
    assert(w.subrange(2, 2 + li) =~= si);
    assert(w.subrange(3 + li, 3 + li + lb) =~= sb);
    lemma_char(s, p, w, 0);
    lemma_char(s, p, w, 1);
    lemma_char(s, p, w, 2 + li);
    lemma_char(s, p, w, w.len() - 1);
    lemma_part(s, p, w, 2, 2 + li);
    lemma_part(s, p, w, 3 + li, 3 + li + lb);
    // the binder
    assert(si[0] == id.name[0]);
    lemma_char(s, p + 2, si, 0);
    assert(skip_spaces(s, p + 2) == p + 2);
    lemma_ident(s, p + 2, id);
    assert(skip_spaces(s, r) == r);
    assert(parse_binders(s, r) == Some((Seq::<Ident>::empty(), d)));
    assert(parse_binders(s, p + 2) == Some((seq![id] + Seq::<Ident>::empty(), d)));
    assert(seq![id] + Seq::<Ident>::empty() =~= seq![id]);
    // the body
    lemma_seq(s, d, *body);
    assert(seq![id].drop_first() =~= Seq::<Ident>::empty());
    assert(abs_over(seq![id], *body) == Term::Abs(
        id,
        Box::new(abs_over(seq![id].drop_first(), *body)),
    ));
    assert(parse_item(s, p + 1) == Some((t, eb)));
    // the parentheses
    assert(skip_spaces(s, p + 1) == p + 1);
    assert(skip_spaces(s, eb) == eb);
    assert(apply_to(None, t) == t);
    assert(parse_seq(s, eb, Some(t)) == Some((t, eb)));
    assert(parse_seq(s, p + 1, None) == Some((t, eb)));
}

proof fn lemma_item_app(s: Seq<char>, p: int, f: Term, a: Term)
    requires
        valid_term(Term::App(Box::new(f), Box::new(a))),
        stands_at(s, p, show(Term::App(Box::new(f), Box::new(a)))),
    ensures
        parse_item(s, p) == Some((
            Term::App(Box::new(f), Box::new(a)),
            p + show(Term::App(Box::new(f), Box::new(a))).len(),
        )),
    decreases Term::App(Box::new(f), Box::new(a)), 0int,
{
    let t = Term::App(Box::new(f), Box::new(a));
    let w = show(t);
    let f = Box::new(f);
    let a = Box::new(a);
    let sf = show(*f);
    let sa = show(*a);
    let lf: int = sf.len() as int;
    let la: int = sa.len() as int;
    let ef = p + 1 + lf;
    let ea = ef + 1 + la;
    assert(w == seq!['('] + sf + seq![' '] + sa + seq![')']);
    assert(w.len() == lf + la + 3);
    assert(w[0] == '(');
    assert(w[1 + lf] == ' ');
    assert(w[w.len() - 1] == ')');
    assert(w.subrange(1, 1 + lf) =~= sf);
    assert(w.subrange(2 + lf, 2 + lf + la) =~= sa);
    lemma_char(s, p, w, 0);
    lemma_char(s, p, w, 1 + lf);
    lemma_char(s, p, w, w.len() - 1);
    lemma_part(s, p, w, 1, 1 + lf);
    lemma_part(s, p, w, 2 + lf, 2 + lf + la);
    lemma_first_char(*f);
    lemma_first_char(*a);
    lemma_char(s, p + 1, sf, 0);
    lemma_char(s, ef + 1, sa, 0);
    lemma_item(s, p + 1, *f);
    lemma_item(s, ef + 1, *a);
    assert(skip_spaces(s, p + 1) == p + 1);
    assert(skip_spaces(s, ef + 1) == ef + 1);
    assert(skip_spaces(s, ef) == ef + 1);
    assert(skip_spaces(s, ea) == ea);
    assert(apply_to(None, *f) == *f);
    assert(apply_to(Some(*f), *a) == t);
    assert(parse_seq(s, ea, Some(t)) == Some((t, ea)));
    assert(parse_seq(s, ef, Some(*f)) == Some((t, ea)));
    assert(parse_seq(s, p + 1, None) == Some((t, ea)));
}

/// Reading back the text of a term whose names are all valid gives the
/// same term: `parse(display(t)) == t`.
pub proof fn lemma_round_trip(t: Term)
    requires
        valid_term(t),
    ensures
        parse_text(show(t)) == Some(t),
{
    let s = show(t);
    assert(s.subrange(0, s.len() as int) =~= s);
    lemma_seq(s, 0, t);
}

} // verus!
