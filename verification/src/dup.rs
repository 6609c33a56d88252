//! The closure materializer: when a function definition becomes a value, its
//! body is duplicated, and every reference to a name that resolves on the
//! current stack and is not protected is replaced by a copy of the resolved
//! value. A name is protected when it is one of the function's own parameter
//! names, or once a `let` for it has been walked earlier in the body: a later
//! reference to it is a local binding, not a capture, and stays a dynamic
//! reference. An unresolvable reference — such as the function's own
//! let-bound name — also stays dynamic, which is how recursion works without
//! a captured self-reference.
use vstd::prelude::*;

use crate::ast::{clone_node, ident_views, lemma_seq_view, seq_view, N, NV};
use crate::ctx::{lookup_name, str_eq, Binds, Ctx};

verus! {

/// The duplicate of `n` under the protected names `excl` and the stack `st`,
/// and the protected names after the walk.
pub open spec fn dup_s(excl: Seq<Seq<char>>, n: NV, st: Binds) -> (NV, Seq<Seq<char>>)
    decreases n,
{
    match n {
        NV::Block(stmts) => {
            let (ds, e2) = dup_seq_s(excl, stmts, st);
            (NV::Block(ds), e2)
        },
        NV::While { condition, body } => {
            let (dc, e1) = dup_s(excl, *condition, st);
            let (db, e2) = dup_s(e1, *body, st);
            (NV::While { condition: Box::new(dc), body: Box::new(db) }, e2)
        },
        NV::FuncCall { func, args } => {
            let (df, e1) = dup_s(excl, *func, st);
            let (da, e2) = dup_seq_s(e1, args, st);
            (NV::FuncCall { func: Box::new(df), args: da }, e2)
        },
        NV::FuncDef { args_name, scope } => {
            let (dsc, e1) = dup_s(excl, *scope, st);
            (NV::FuncDef { args_name, scope: Box::new(dsc) }, e1)
        },
        NV::If { condition, path_true, path_false } => {
            let (dc, e1) = dup_s(excl, *condition, st);
            let (dt, e2) = dup_s(e1, *path_true, st);
            let (df, e3) = dup_s(e2, *path_false, st);
            (
                NV::If {
                    condition: Box::new(dc),
                    path_true: Box::new(dt),
                    path_false: Box::new(df),
                },
                e3,
            )
        },
        NV::Get(name) => {
            if excl.contains(name) {
                (NV::Get(name), excl)
            } else {
                match lookup_name(st, name) {
                    Some(i) => (st[i].1, excl),
                    None => (NV::Get(name), excl),
                }
            }
        },
        NV::Let(name, val) => {
            let (dv, e1) = dup_s(excl, *val, st);
            let e2 = if e1.contains(name) {
                e1
            } else {
                e1.push(name)
            };
            (NV::Let(name, Box::new(dv)), e2)
        },
        NV::Binary(op, l, r) => {
            let (dl, e1) = dup_s(excl, *l, st);
            let (dr, e2) = dup_s(e1, *r, st);
            (NV::Binary(op, Box::new(dl), Box::new(dr)), e2)
        },
        NV::Array(elems) => {
            let (ds, e2) = dup_seq_s(excl, elems, st);
            (NV::Array(ds), e2)
        },
        _ => (n, excl),
    }
}

/// The duplicates of the nodes of a sequence, left to right, threading the
/// protected names through.
pub open spec fn dup_seq_s(excl: Seq<Seq<char>>, s: Seq<NV>, st: Binds) -> (
    Seq<NV>,
    Seq<Seq<char>>,
)
    decreases s,
{
    if s.len() == 0 {
        (Seq::empty(), excl)
    } else {
        let (h, e1) = dup_s(excl, s[0], st);
        let (rest, e2) = dup_seq_s(e1, s.subrange(1, s.len() as int), st);
        (seq![h] + rest, e2)
    }
}

/// Whether one of the identifiers of `v` reads `name`.
fn contains_ident(v: &Vec<String>, name: &String) -> (r: bool)
    ensures
        r == ident_views(v@).contains(name@),
{
    let mut j: usize = 0;
    loop
        invariant
            j <= v@.len(),
            forall|k: int| 0 <= k < j ==> #[trigger] v@[k]@ != name@,
        ensures
            forall|k: int| 0 <= k < v@.len() ==> #[trigger] v@[k]@ != name@,
        decreases v@.len() - j,
    {
        if j >= v.len() {
            break;
        }
        if str_eq(v[j].as_str(), name.as_str()) {
            proof {
                assert(ident_views(v@)[j as int] == name@);
            }
            return true;
        }
        j = j + 1;
    }
    proof {
        assert forall|i: int| 0 <= i < ident_views(v@).len() implies ident_views(v@)[i]
            != name@ by {
            assert(v@[i]@ != name@);
        }
    }
    false
}

/// Creates a duplicate of a subtree, replacing resolvable unprotected
/// variable references by copies of their values; `let` walks extend the
/// protected names.
pub fn dup(excl: &mut Vec<String>, n: &N, ctx: &Ctx) -> (res: N)
    requires
        ctx.wf(),
    ensures
        res@ == dup_s(ident_views(old(excl)@), n@, ctx.binds()).0,
        ident_views(final(excl)@) == dup_s(ident_views(old(excl)@), n@, ctx.binds()).1,
    decreases n,
{
    match n {
        N::Block(stmts) => N::Block(dup_vec(excl, stmts, ctx)),
        N::While { condition, body } => {
            let dc = dup(excl, condition, ctx);
            let db = dup(excl, body, ctx);
            N::While { condition: Box::new(dc), body: Box::new(db) }
        },
        N::FuncCall { func, args } => {
            let df = dup(excl, func, ctx);
            let da = dup_vec(excl, args, ctx);
            N::FuncCall { func: Box::new(df), args: da }
        },
        N::FuncDef { args_name, scope } => {
            let dsc = dup(excl, scope, ctx);
            N::FuncDef { args_name: crate::ast::clone_idents(args_name), scope: Box::new(dsc) }
        },
        N::If { condition, path_true, path_false } => {
            let dc = dup(excl, condition, ctx);
            let dt = dup(excl, path_true, ctx);
            let df = dup(excl, path_false, ctx);
            N::If {
                condition: Box::new(dc),
                path_true: Box::new(dt),
                path_false: Box::new(df),
            }
        },
        N::Get(name) => {
            if contains_ident(excl, name) {
                N::Get(name.clone())
            } else {
                match ctx.find_var(name.as_str()) {
                    Some(i) => {
                        proof {
                            crate::ctx::lemma_lookup_name(ctx.binds(), name@);
                        }
                        clone_node(&ctx.values[i])
                    },
                    None => N::Get(name.clone()),
                }
            }
        },
        N::Let(name, val) => {
            let dv = dup(excl, val, ctx);
            if !contains_ident(excl, name) {
                let ghost pre = excl@;
                excl.push(name.clone());
                proof {
                    assert(excl@ == pre.push(*name));
                    crate::ast::lemma_ident_views_push(pre, *name);
                }
            }
            N::Let(name.clone(), Box::new(dv))
        },
        N::Binary(op, l, r) => {
            let dl = dup(excl, l, ctx);
            let dr = dup(excl, r, ctx);
            N::Binary(*op, Box::new(dl), Box::new(dr))
        },
        N::Array(elems) => N::Array(dup_vec(excl, elems, ctx)),
        _ => clone_node(n),
    }
}

/// Duplicates each node of a vector, left to right, threading the protected
/// names through.
fn dup_vec(excl: &mut Vec<String>, v: &Vec<N>, ctx: &Ctx) -> (res: Vec<N>)
    requires
        ctx.wf(),
    ensures
        seq_view(res@) == dup_seq_s(ident_views(old(excl)@), seq_view(v@), ctx.binds()).0,
        ident_views(final(excl)@) == dup_seq_s(
            ident_views(old(excl)@),
            seq_view(v@),
            ctx.binds(),
        ).1,
    decreases v,
{
    let ghost e0 = ident_views(old(excl)@);
    let ghost full = seq_view(v@);
    let ghost st = ctx.binds();
    let mut out: Vec<N> = Vec::new();
    let mut k: usize = 0;
    proof {
        lemma_seq_view(v@);
        assert(full.subrange(0, full.len() as int) =~= full);
        assert(seq_view(out@) =~= Seq::<NV>::empty());
    }
    while k < v.len()
        invariant
            ctx.wf(),
            k <= v@.len(),
            full == seq_view(v@),
            st == ctx.binds(),
            dup_seq_s(e0, full, st).0 == seq_view(out@) + dup_seq_s(
                ident_views(excl@),
                full.subrange(k as int, full.len() as int),
                st,
            ).0,
            dup_seq_s(e0, full, st).1 == dup_seq_s(
                ident_views(excl@),
                full.subrange(k as int, full.len() as int),
                st,
            ).1,
        decreases v@.len() - k,
    {
        let ghost pre_excl = ident_views(excl@);
        let ghost pre_out = seq_view(out@);
        let ghost tail = full.subrange(k as int, full.len() as int);
        let d = dup(excl, &v[k], ctx);
        let ghost dv = d@;
        let ghost outpre = out@;
        out.push(d);
        k = k + 1;
        proof {
            lemma_seq_view(v@);
            lemma_seq_view(outpre);
            lemma_seq_view(out@);
            assert(tail[0] == full[k - 1]);
            assert(full[k - 1] == v@[k - 1]@);
            assert(tail.subrange(1, tail.len() as int) =~= full.subrange(
                k as int,
                full.len() as int,
            ));
            assert(seq_view(out@) =~= pre_out.push(dv));
            let rest = dup_seq_s(
                ident_views(excl@),
                full.subrange(k as int, full.len() as int),
                st,
            ).0;
            assert(dup_seq_s(pre_excl, tail, st).0 == seq![dv] + rest);
            assert(pre_out + (seq![dv] + rest) =~= seq_view(out@) + rest);
        }
    }
    proof {
        assert(full.subrange(k as int, full.len() as int) =~= Seq::<NV>::empty());
        assert(dup_seq_s(ident_views(excl@), Seq::<NV>::empty(), st).0 =~= Seq::<NV>::empty());
        assert(seq_view(out@) + Seq::<NV>::empty() =~= seq_view(out@));
    }
    out
}

} // verus!
