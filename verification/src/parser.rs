//! The recursive-descent parser, in three precedence tiers: a factor (block,
//! array, function definition, literals, `while`, `if`, `let`, identifier),
//! a term (a factor under `*`, `/` or a call-argument list), an expression
//! (a term under any other binary operator, whose right-hand side recurses
//! into the expression rule again, which makes every non-multiplicative
//! operator right-associative). Statement and argument lists are parsed by
//! attempting expressions until one fails; that failure ends the list.
//! Each executable function returns exactly what its model says.
use vstd::prelude::*;

use crate::ast::{ident_views, lemma_ident_views_push, lemma_seq_view, lemma_seq_view_push,
    seq_view, Op, N, NV};
use crate::ctx::Ctx;
use crate::lexer::{next_token, next_token_s, Token, TokenV};

verus! {

/// A parse error: a short diagnostic.
pub type Error = &'static str;

/// The factor rule: one tightly bound syntactic unit. `Err` carries the
/// diagnostic; `Ok` carries the node and the cursor after it.
pub open spec fn parse_factor_s(code: Seq<char>, i: int) -> Result<(NV, int), Seq<char>>
    decreases code.len() - i, 0int,
{
    if i >= code.len() {
        Err("EOF"@)
    } else {
        let (tok, j) = next_token_s(code, i);
        if i < j <= code.len() {
            match tok {
                TokenV::BlockStart => {
                    let (stmts, k) = parse_stmts_s(code, j);
                    let (t2, m) = next_token_s(code, k);
                    if t2 is BlockEnd {
                        Ok((NV::Block(stmts), m))
                    } else {
                        Err("No block end"@)
                    }
                },
                TokenV::ArrayStart => {
                    let (elems, k) = parse_elems_s(code, j);
                    Ok((NV::Array(elems), k))
                },
                TokenV::ParStart => {
                    let (params, k) = parse_params_s(code, j);
                    let (t2, m) = next_token_s(code, k);
                    if t2 is Assoc {
                        if i < m <= code.len() {
                            match parse_expr_s(code, m) {
                                Err(e) => Err(e),
                                Ok((body, p)) => Ok(
                                    (NV::FuncDef { args_name: params, scope: Box::new(body) }, p),
                                ),
                            }
                        } else {
                            Err("No term found"@)
                        }
                    } else {
                        Err("No => after func def"@)
                    }
                },
                TokenV::Quoted(s) => Ok((NV::Str(s), j)),
                TokenV::While => {
                    match parse_expr_s(code, j) {
                        Err(e) => Err(e),
                        Ok((cond, p)) => {
                            if i < p <= code.len() {
                                match parse_expr_s(code, p) {
                                    Err(e) => Err(e),
                                    Ok((body, q)) => Ok(
                                        (
                                            NV::While {
                                                condition: Box::new(cond),
                                                body: Box::new(body),
                                            },
                                            q,
                                        ),
                                    ),
                                }
                            } else {
                                Err("No term found"@)
                            }
                        },
                    }
                },
                TokenV::If => {
                    match parse_expr_s(code, j) {
                        Err(e) => Err(e),
                        Ok((cond, p)) => {
                            if i < p <= code.len() {
                                match parse_expr_s(code, p) {
                                    Err(e) => Err(e),
                                    Ok((tbr, q)) => {
                                        let (t2, r) = next_token_s(code, q);
                                        if t2 is Else {
                                            if i < r <= code.len() {
                                                match parse_expr_s(code, r) {
                                                    Err(e) => Err(e),
                                                    Ok((ebr, s2)) => Ok(
                                                        (
                                                            NV::If {
                                                                condition: Box::new(cond),
                                                                path_true: Box::new(tbr),
                                                                path_false: Box::new(ebr),
                                                            },
                                                            s2,
                                                        ),
                                                    ),
                                                }
                                            } else {
                                                Err("No term found"@)
                                            }
                                        } else {
                                            Ok(
                                                (
                                                    NV::If {
                                                        condition: Box::new(cond),
                                                        path_true: Box::new(tbr),
                                                        path_false: Box::new(NV::Unit),
                                                    },
                                                    q,
                                                ),
                                            )
                                        }
                                    },
                                }
                            } else {
                                Err("No term found"@)
                            }
                        },
                    }
                },
                TokenV::Let(name) => {
                    match parse_expr_s(code, j) {
                        Err(e) => Err(e),
                        Ok((val, p)) => Ok((NV::Let(name, Box::new(val)), p)),
                    }
                },
                TokenV::N(nv) => match nv {
                    NV::Num(b) => Ok((NV::Num(b), j)),
                    NV::Get(name) => Ok((NV::Get(name), j)),
                    _ => Err("No term found"@),
                },
                _ => Err("No term found"@),
            }
        } else {
            Err("No term found"@)
        }
    }
}

/// The term rule: a factor, under `*` or `/`, or called with an argument
/// list; a factor directly followed by `(` is a function call.
pub open spec fn parse_term_s(code: Seq<char>, i: int) -> Result<(NV, int), Seq<char>>
    decreases code.len() - i, 1int,
{
    match parse_factor_s(code, i) {
        Err(e) => Err(e),
        Ok((factor, i2)) => {
            let (tok, j) = next_token_s(code, i2);
            match tok {
                TokenV::Bin(op) => {
                    if op == Op::Mul || op == Op::Div {
                        if i < j <= code.len() {
                            match parse_term_s(code, j) {
                                Err(e) => Err(e),
                                Ok((rhs, k)) => Ok(
                                    (NV::Binary(op, Box::new(factor), Box::new(rhs)), k),
                                ),
                            }
                        } else {
                            Err("No term found"@)
                        }
                    } else {
                        Ok((factor, i2))
                    }
                },
                TokenV::ParStart => {
                    if i < j <= code.len() {
                        let (args, k) = parse_args_s(code, j);
                        let (t2, m) = next_token_s(code, k);
                        if t2 is ParEnd {
                            Ok((NV::FuncCall { func: Box::new(factor), args }, m))
                        } else {
                            Err("No parenthesis close"@)
                        }
                    } else {
                        Err("No term found"@)
                    }
                },
                _ => Ok((factor, i2)),
            }
        },
    }
}

/// The expression rule: a term, under any other binary operator; the
/// right-hand side recurses into the expression rule again, so every
/// non-multiplicative operator is right-associative.
pub open spec fn parse_expr_s(code: Seq<char>, i: int) -> Result<(NV, int), Seq<char>>
    decreases code.len() - i, 2int,
{
    match parse_term_s(code, i) {
        Err(e) => Err(e),
        Ok((term, i2)) => {
            let (tok, j) = next_token_s(code, i2);
            match tok {
                TokenV::Bin(op) => {
                    if i < j <= code.len() {
                        match parse_expr_s(code, j) {
                            Err(e) => Err(e),
                            Ok((rhs, k)) => Ok(
                                (NV::Binary(op, Box::new(term), Box::new(rhs)), k),
                            ),
                        }
                    } else {
                        Err("No term found"@)
                    }
                },
                _ => Ok((term, i2)),
            }
        },
    }
}

/// A statement list: expressions parsed until one fails; the failure ends
/// the list and is not an error.
pub open spec fn parse_stmts_s(code: Seq<char>, i: int) -> (Seq<NV>, int)
    decreases code.len() - i, 3int,
{
    match parse_expr_s(code, i) {
        Err(_) => (Seq::empty(), i),
        Ok((e, p)) => {
            if i < p <= code.len() {
                let (rest, m) = parse_stmts_s(code, p);
                (seq![e] + rest, m)
            } else {
                (seq![e], p)
            }
        },
    }
}

/// A call-argument list: expressions, each optionally followed by a comma,
/// until one fails.
pub open spec fn parse_args_s(code: Seq<char>, i: int) -> (Seq<NV>, int)
    decreases code.len() - i, 3int,
{
    match parse_expr_s(code, i) {
        Err(_) => (Seq::empty(), i),
        Ok((e, p)) => {
            let (tok, k) = next_token_s(code, p);
            let nxt = if tok is Comma {
                k
            } else {
                p
            };
            if i < nxt <= code.len() {
                let (rest, m) = parse_args_s(code, nxt);
                (seq![e] + rest, m)
            } else {
                (seq![e], nxt)
            }
        },
    }
}

/// An array-literal element list: expressions until one fails; a comma is
/// then skipped and the list continues, any other token closes the list.
pub open spec fn parse_elems_s(code: Seq<char>, i: int) -> (Seq<NV>, int)
    decreases code.len() - i, 3int,
{
    match parse_expr_s(code, i) {
        Ok((e, p)) => {
            if i < p <= code.len() {
                let (rest, m) = parse_elems_s(code, p);
                (seq![e] + rest, m)
            } else {
                (seq![e], p)
            }
        },
        Err(_) => {
            let (tok, k) = next_token_s(code, i);
            if tok is Comma {
                if i < k <= code.len() {
                    parse_elems_s(code, k)
                } else {
                    (Seq::empty(), k)
                }
            } else {
                (Seq::empty(), k)
            }
        },
    }
}

/// A parameter-name list: identifiers and commas up to the closing
/// parenthesis; other tokens are skipped, and a lexer error ends the list.
pub open spec fn parse_params_s(code: Seq<char>, i: int) -> (Seq<Seq<char>>, int)
    decreases code.len() - i, 0int,
{
    let (tok, j) = next_token_s(code, i);
    match tok {
        TokenV::ParEnd => (Seq::empty(), j),
        TokenV::Fail(_) => (Seq::empty(), j),
        TokenV::N(nv) => {
            if i < j <= code.len() {
                let (rest, m) = parse_params_s(code, j);
                if nv is Get {
                    (seq![nv->Get_0] + rest, m)
                } else {
                    (rest, m)
                }
            } else {
                (Seq::empty(), j)
            }
        },
        _ => {
            if i < j <= code.len() {
                parse_params_s(code, j)
            } else {
                (Seq::empty(), j)
            }
        },
    }
}

/// Parses one factor; returns the node or the diagnostic, and the cursor.
fn parse_factor(code: &Vec<char>, i: usize) -> (res: (Result<N, Error>, usize))
    requires
        i <= code@.len(),
    ensures
        i <= res.1 <= code@.len(),
        match res.0 {
            Ok(n) => parse_factor_s(code@, i as int) matches Ok(p) && p.0 == n@ && p.1 == res.1
                as int && res.1 > i,
            Err(e) => parse_factor_s(code@, i as int) matches Err(m) && m == e@,
        },
    decreases code@.len() - i, 0int,
{
    if i >= code.len() {
        return (Err("EOF"), i);
    }
    let mut j = i;
    let tok = next_token(&mut j, code);
    match tok {
        Token::BlockStart => {
            let (stmts, k) = parse_stmts(code, j);
            let mut m = k;
            let t2 = next_token(&mut m, code);
            match t2 {
                Token::BlockEnd => (Ok(N::Block(stmts)), m),
                _ => (Err("No block end"), m),
            }
        },
        Token::ArrayStart => {
            let (elems, k) = parse_elems(code, j);
            (Ok(N::Array(elems)), k)
        },
        Token::ParStart => {
            let (params, k) = parse_params(code, j);
            let mut m = k;
            let t2 = next_token(&mut m, code);
            match t2 {
                Token::Assoc => {
                    let (body, p) = parse_expr(code, m);
                    match body {
                        Ok(b) => (Ok(N::FuncDef { args_name: params, scope: Box::new(b) }), p),
                        Err(e) => (Err(e), p),
                    }
                },
                _ => (Err("No => after func def"), m),
            }
        },
        Token::Quoted(s) => (Ok(N::Str(s)), j),
        Token::While => {
            let (cond, p) = parse_expr(code, j);
            match cond {
                Err(e) => (Err(e), p),
                Ok(c) => {
                    let (body, q) = parse_expr(code, p);
                    match body {
                        Err(e) => (Err(e), q),
                        Ok(b) => (
                            Ok(N::While { condition: Box::new(c), body: Box::new(b) }),
                            q,
                        ),
                    }
                },
            }
        },
        Token::If => {
            let (cond, p) = parse_expr(code, j);
            match cond {
                Err(e) => (Err(e), p),
                Ok(c) => {
                    let (tbr, q) = parse_expr(code, p);
                    match tbr {
                        Err(e) => (Err(e), q),
                        Ok(t) => {
                            let mut r = q;
                            let t2 = next_token(&mut r, code);
                            match t2 {
                                Token::Else => {
                                    let (ebr, s2) = parse_expr(code, r);
                                    match ebr {
                                        Err(e) => (Err(e), s2),
                                        Ok(eb) => (
                                            Ok(
                                                N::If {
                                                    condition: Box::new(c),
                                                    path_true: Box::new(t),
                                                    path_false: Box::new(eb),
                                                },
                                            ),
                                            s2,
                                        ),
                                    }
                                },
                                _ => {
                                    let ghost cv = c@;
                                    let ghost tv = t@;
                                    let bc = Box::new(c);
                                    let bt = Box::new(t);
                                    let bu = Box::new(N::Unit);
                                    proof {
                                        assert((*bc)@ == cv);
                                        assert((*bt)@ == tv);
                                        assert((*bu)@ == NV::Unit);
                                    }
                                    let out = N::If {
                                        condition: bc,
                                        path_true: bt,
                                        path_false: bu,
                                    };
                                    proof {
                                        assert(out@ =~= NV::If {
                                            condition: Box::new(cv),
                                            path_true: Box::new(tv),
                                            path_false: Box::new(NV::Unit),
                                        });
                                    }
                                    (Ok(out), q)
                                },
                            }
                        },
                    }
                },
            }
        },
        Token::Let(name) => {
            let (val, p) = parse_expr(code, j);
            match val {
                Err(e) => (Err(e), p),
                Ok(v) => (Ok(N::Let(name, Box::new(v))), p),
            }
        },
        Token::N(n) => match n {
            N::Num(b) => (Ok(N::Num(b)), j),
            N::Get(name) => (Ok(N::Get(name)), j),
            _ => (Err("No term found"), j),
        },
        _ => (Err("No term found"), j),
    }
}

/// Parses one term; returns the node or the diagnostic, and the cursor.
fn parse_term(code: &Vec<char>, i: usize) -> (res: (Result<N, Error>, usize))
    requires
        i <= code@.len(),
    ensures
        i <= res.1 <= code@.len(),
        match res.0 {
            Ok(n) => parse_term_s(code@, i as int) matches Ok(p) && p.0 == n@ && p.1 == res.1
                as int && res.1 > i,
            Err(e) => parse_term_s(code@, i as int) matches Err(m) && m == e@,
        },
    decreases code@.len() - i, 1int,
{
    let (factor, i2) = parse_factor(code, i);
    match factor {
        Err(e) => (Err(e), i2),
        Ok(f) => {
            let mut j = i2;
            let tok = next_token(&mut j, code);
            match tok {
                Token::Bin(op) => {
                    if !op.term_separate() {
                        let (rhs, k) = parse_term(code, j);
                        match rhs {
                            Err(e) => (Err(e), k),
                            Ok(r) => (Ok(N::Binary(op, Box::new(f), Box::new(r))), k),
                        }
                    } else {
                        (Ok(f), i2)
                    }
                },
                Token::ParStart => {
                    let (args, k) = parse_args(code, j);
                    let mut m = k;
                    let t2 = next_token(&mut m, code);
                    match t2 {
                        Token::ParEnd => (Ok(N::FuncCall { func: Box::new(f), args }), m),
                        _ => (Err("No parenthesis close"), m),
                    }
                },
                _ => (Ok(f), i2),
            }
        },
    }
}

/// Parses one expression; returns the node or the diagnostic, and the
/// cursor.
fn parse_expr(code: &Vec<char>, i: usize) -> (res: (Result<N, Error>, usize))
    requires
        i <= code@.len(),
    ensures
        i <= res.1 <= code@.len(),
        match res.0 {
            Ok(n) => parse_expr_s(code@, i as int) matches Ok(p) && p.0 == n@ && p.1 == res.1
                as int && res.1 > i,
            Err(e) => parse_expr_s(code@, i as int) matches Err(m) && m == e@,
        },
    decreases code@.len() - i, 2int,
{
    let (term, i2) = parse_term(code, i);
    match term {
        Err(e) => (Err(e), i2),
        Ok(t) => {
            let mut j = i2;
            let tok = next_token(&mut j, code);
            match tok {
                Token::Bin(op) => {
                    let (rhs, k) = parse_expr(code, j);
                    match rhs {
                        Err(e) => (Err(e), k),
                        Ok(r) => (Ok(N::Binary(op, Box::new(t), Box::new(r))), k),
                    }
                },
                _ => (Ok(t), i2),
            }
        },
    }
}

/// Parses a statement list and the cursor after it.
fn parse_stmts(code: &Vec<char>, i: usize) -> (res: (Vec<N>, usize))
    requires
        i <= code@.len(),
    ensures
        i <= res.1 <= code@.len(),
        parse_stmts_s(code@, i as int) == (seq_view(res.0@), res.1 as int),
    decreases code@.len() - i, 3int,
{
    let mut acc: Vec<N> = Vec::new();
    let mut cur = i;
    proof {
        lemma_seq_view(acc@);
    }
    loop
        invariant
            i <= cur <= code@.len(),
            parse_stmts_s(code@, i as int).0 == seq_view(acc@) + parse_stmts_s(
                code@,
                cur as int,
            ).0,
            parse_stmts_s(code@, i as int).1 == parse_stmts_s(code@, cur as int).1,
        ensures
            i <= cur <= code@.len(),
            parse_stmts_s(code@, i as int) == (seq_view(acc@), cur as int),
        decreases code@.len() - cur,
    {
        let ghost prev = cur as int;
        let (e, j) = parse_expr(code, cur);
        match e {
            Ok(n) => {
                let ghost old_acc = acc@;
                cur = j;
                acc.push(n);
                proof {
                    lemma_seq_view_push(old_acc, n);
                    let (rest, m) = parse_stmts_s(code@, cur as int);
                    assert(parse_stmts_s(code@, prev) == (seq![n@] + rest, m));
                    assert(seq_view(old_acc) + (seq![n@] + rest) =~= seq_view(acc@) + rest);
                }
            },
            Err(_) => {
                proof {
                    assert(parse_stmts_s(code@, cur as int) == (Seq::<NV>::empty(), cur as int));
                    assert(seq_view(acc@) + Seq::<NV>::empty() =~= seq_view(acc@));
                }
                break;
            },
        }
    }
    (acc, cur)
}

/// Parses a call-argument list and the cursor after it.
fn parse_args(code: &Vec<char>, i: usize) -> (res: (Vec<N>, usize))
    requires
        i <= code@.len(),
    ensures
        i <= res.1 <= code@.len(),
        parse_args_s(code@, i as int) == (seq_view(res.0@), res.1 as int),
    decreases code@.len() - i, 3int,
{
    let mut acc: Vec<N> = Vec::new();
    let mut cur = i;
    proof {
        lemma_seq_view(acc@);
    }
    loop
        invariant
            i <= cur <= code@.len(),
            parse_args_s(code@, i as int).0 == seq_view(acc@) + parse_args_s(
                code@,
                cur as int,
            ).0,
            parse_args_s(code@, i as int).1 == parse_args_s(code@, cur as int).1,
        ensures
            i <= cur <= code@.len(),
            parse_args_s(code@, i as int) == (seq_view(acc@), cur as int),
        decreases code@.len() - cur,
    {
        let ghost prev = cur as int;
        let (e, j) = parse_expr(code, cur);
        match e {
            Ok(n) => {
                let ghost old_acc = acc@;
                cur = j;
                acc.push(n);
                let mut k = cur;
                let t = next_token(&mut k, code);
                match t {
                    Token::Comma => {
                        cur = k;
                    },
                    _ => {},
                }
                proof {
                    lemma_seq_view_push(old_acc, n);
                    let (rest, m) = parse_args_s(code@, cur as int);
                    assert(parse_args_s(code@, prev) == (seq![n@] + rest, m));
                    assert(seq_view(old_acc) + (seq![n@] + rest) =~= seq_view(acc@) + rest);
                }
            },
            Err(_) => {
                proof {
                    assert(parse_args_s(code@, cur as int) == (Seq::<NV>::empty(), cur as int));
                    assert(seq_view(acc@) + Seq::<NV>::empty() =~= seq_view(acc@));
                }
                break;
            },
        }
    }
    (acc, cur)
}

/// Parses an array-literal element list and the cursor after it.
fn parse_elems(code: &Vec<char>, i: usize) -> (res: (Vec<N>, usize))
    requires
        i <= code@.len(),
    ensures
        i <= res.1 <= code@.len(),
        parse_elems_s(code@, i as int) == (seq_view(res.0@), res.1 as int),
    decreases code@.len() - i, 3int,
{
    let mut acc: Vec<N> = Vec::new();
    let mut cur = i;
    proof {
        lemma_seq_view(acc@);
    }
    loop
        invariant_except_break
            parse_elems_s(code@, i as int).0 == seq_view(acc@) + parse_elems_s(
                code@,
                cur as int,
            ).0,
            parse_elems_s(code@, i as int).1 == parse_elems_s(code@, cur as int).1,
        invariant
            i <= cur <= code@.len(),
        ensures
            i <= cur <= code@.len(),
            parse_elems_s(code@, i as int) == (seq_view(acc@), cur as int),
        decreases code@.len() - cur,
    {
        let ghost prev = cur as int;
        let (e, j) = parse_expr(code, cur);
        match e {
            Ok(n) => {
                let ghost old_acc = acc@;
                cur = j;
                acc.push(n);
                proof {
                    lemma_seq_view_push(old_acc, n);
                    let (rest, m) = parse_elems_s(code@, cur as int);
                    assert(parse_elems_s(code@, prev) == (seq![n@] + rest, m));
                    assert(seq_view(old_acc) + (seq![n@] + rest) =~= seq_view(acc@) + rest);
                }
            },
            Err(_) => {
                let mut k = cur;
                let t = next_token(&mut k, code);
                match t {
                    Token::Comma => {
                        cur = k;
                    },
                    _ => {
                        cur = k;
                        proof {
                            assert(parse_elems_s(code@, prev) == (
                                Seq::<NV>::empty(),
                                cur as int,
                            ));
                            assert(seq_view(acc@) + Seq::<NV>::empty() =~= seq_view(acc@));
                        }
                        break;
                    },
                }
            },
        }
    }
    (acc, cur)
}

/// Parses a parameter-name list and the cursor after it.
fn parse_params(code: &Vec<char>, i: usize) -> (res: (Vec<String>, usize))
    requires
        i <= code@.len(),
    ensures
        i <= res.1 <= code@.len(),
        parse_params_s(code@, i as int) == (ident_views(res.0@), res.1 as int),
    decreases code@.len() - i, 0int,
{
    let mut acc: Vec<String> = Vec::new();
    let mut cur = i;
    proof {
        assert(ident_views(acc@) =~= Seq::<Seq<char>>::empty());
    }
    loop
        invariant_except_break
            parse_params_s(code@, i as int).0 == ident_views(acc@) + parse_params_s(
                code@,
                cur as int,
            ).0,
            parse_params_s(code@, i as int).1 == parse_params_s(code@, cur as int).1,
        invariant
            i <= cur <= code@.len(),
        ensures
            i <= cur <= code@.len(),
            parse_params_s(code@, i as int) == (ident_views(acc@), cur as int),
        decreases code@.len() - cur,
    {
        let ghost prev = cur as int;
        let t = next_token(&mut cur, code);
        match t {
            Token::ParEnd => {
                proof {
                    assert(parse_params_s(code@, prev) == (
                        Seq::<Seq<char>>::empty(),
                        cur as int,
                    ));
                    assert(ident_views(acc@) + Seq::<Seq<char>>::empty() =~= ident_views(acc@));
                }
                break;
            },
            Token::Fail(_) => {
                proof {
                    assert(parse_params_s(code@, prev) == (
                        Seq::<Seq<char>>::empty(),
                        cur as int,
                    ));
                    assert(ident_views(acc@) + Seq::<Seq<char>>::empty() =~= ident_views(acc@));
                }
                break;
            },
            Token::N(n) => {
                match n {
                    N::Get(name) => {
                        let ghost old_acc = acc@;
                        let ghost nameg = name;
                        acc.push(name);
                        proof {
                            lemma_ident_views_push(old_acc, nameg);
                            let (rest, m) = parse_params_s(code@, cur as int);
                            assert(parse_params_s(code@, prev) == (seq![nameg@] + rest, m));
                            assert(ident_views(old_acc) + (seq![nameg@] + rest) =~= ident_views(
                                acc@,
                            ) + rest);
                        }
                    },
                    _ => {},
                }
            },
            _ => {},
        }
    }
    (acc, cur)
}

impl Ctx {
    /// Parses one top-level expression out of the pending text and removes
    /// exactly the consumed text, so that a host can alternate parsing and
    /// evaluating over a stream of statements.
    pub fn parse_next_expr(&mut self) -> (res: Result<N, Error>)
        ensures
            final(self).values == old(self).values,
            final(self).idents == old(self).idents,
            match res {
                Ok(n) => parse_expr_s(old(self).code@, 0) matches Ok(p) && p.0 == n@ && 0 < p.1
                    <= old(self).code@.len() && final(self).code@ == old(self).code@.subrange(
                    p.1,
                    old(self).code@.len() as int,
                ) && final(self).code@.len() < old(self).code@.len(),
                Err(e) => parse_expr_s(old(self).code@, 0) matches Err(m) && m == e@
                    && final(self).code == old(self).code,
            },
    {
        let (r, used) = parse_expr(&self.code, 0);
        match r {
            Ok(n) => {
                let rest = self.code.split_off(used);
                self.code = rest;
                Ok(n)
            },
            Err(e) => Err(e),
        }
    }
}

} // verus!
