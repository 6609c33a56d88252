//! The general laws of the language, stated over the models that the
//! executable code is proved to follow.
use vstd::prelude::*;

use crate::ast::NV;
use crate::ctx::{lookup_name, Binds};
use crate::dup::{dup_s, dup_seq_s};
use crate::eval::eval_s;

verus! {

/// Evaluation is pure: from equal states, with equal budgets, the same node
/// yields the same outcome, so re-evaluating an already-parsed node against
/// a fresh context with the same bindings repeats the result.
pub proof fn lemma_eval_pure(n: NV, st1: Binds, st2: Binds, fuel: nat)
    requires
        st1 == st2,
    ensures
        eval_s(n, st1, fuel) == eval_s(n, st2, fuel),
{
}

/// A block leaves the stack at the length it had on entry: bindings made
/// inside the block are not visible after it exits.
pub proof fn lemma_block_scope(stmts: Seq<NV>, st: Binds, fuel: nat)
    ensures
        eval_s(NV::Block(stmts), st, fuel) matches Some(t) ==> t.1.len() == st.len(),
{
}

/// A protected name is never substituted: a reference to it survives
/// duplication as the same dynamic reference.
pub proof fn lemma_dup_protected_get(excl: Seq<Seq<char>>, name: Seq<char>, st: Binds)
    requires
        excl.contains(name),
    ensures
        dup_s(excl, NV::Get(name), st).0 == NV::Get(name),
        dup_s(excl, NV::Get(name), st).1 == excl,
{
}

/// An unresolvable name is never substituted either: a reference to a name
/// with no binding on the stack — such as a function's own let-bound name —
/// stays a dynamic reference, which is how recursion works without a
/// captured self-reference.
pub proof fn lemma_dup_unresolved_get(excl: Seq<Seq<char>>, name: Seq<char>, st: Binds)
    requires
        lookup_name(st, name) is None,
    ensures
        dup_s(excl, NV::Get(name), st).0 == NV::Get(name),
        dup_s(excl, NV::Get(name), st).1 == excl,
{
}

/// Protection is never lost: every name protected before a walk is still
/// protected after it, whatever the walk adds.
pub proof fn lemma_dup_keeps_protection(
    excl: Seq<Seq<char>>,
    n: NV,
    st: Binds,
    name: Seq<char>,
)
    requires
        excl.contains(name),
    ensures
        dup_s(excl, n, st).1.contains(name),
    decreases n,
{
    match n {
        NV::Block(stmts) => {
            lemma_dup_seq_keeps_protection(excl, stmts, st, name);
        },
        NV::While { condition, body } => {
            lemma_dup_keeps_protection(excl, *condition, st, name);
            lemma_dup_keeps_protection(dup_s(excl, *condition, st).1, *body, st, name);
        },
        NV::FuncCall { func, args } => {
            lemma_dup_keeps_protection(excl, *func, st, name);
            lemma_dup_seq_keeps_protection(dup_s(excl, *func, st).1, args, st, name);
        },
        NV::FuncDef { args_name, scope } => {
            lemma_dup_keeps_protection(excl, *scope, st, name);
        },
        NV::If { condition, path_true, path_false } => {
            let e1 = dup_s(excl, *condition, st).1;
            let e2 = dup_s(e1, *path_true, st).1;
            lemma_dup_keeps_protection(excl, *condition, st, name);
            lemma_dup_keeps_protection(e1, *path_true, st, name);
            lemma_dup_keeps_protection(e2, *path_false, st, name);
        },
        NV::Let(nm, val) => {
            lemma_dup_keeps_protection(excl, *val, st, name);
            let e1 = dup_s(excl, *val, st).1;
            if !e1.contains(nm) {
                let i = choose|i: int| 0 <= i < e1.len() && e1[i] == name;
                assert(e1.push(nm)[i] == name);
            }
        },
        NV::Binary(op, l, r) => {
            lemma_dup_keeps_protection(excl, *l, st, name);
            lemma_dup_keeps_protection(dup_s(excl, *l, st).1, *r, st, name);
        },
        NV::Array(elems) => {
            lemma_dup_seq_keeps_protection(excl, elems, st, name);
        },
        _ => {},
    }
}

/// Protection is never lost across the walk of a node list.
pub proof fn lemma_dup_seq_keeps_protection(
    excl: Seq<Seq<char>>,
    s: Seq<NV>,
    st: Binds,
    name: Seq<char>,
)
    requires
        excl.contains(name),
    ensures
        dup_seq_s(excl, s, st).1.contains(name),
    decreases s,
{
    if s.len() > 0 {
        lemma_dup_keeps_protection(excl, s[0], st, name);
        lemma_dup_seq_keeps_protection(
            dup_s(excl, s[0], st).1,
            s.subrange(1, s.len() as int),
            st,
            name,
        );
    }
}

/// Whether a node holds no host callback anywhere.
pub open spec fn native_free(n: NV) -> bool
    decreases n,
{
    match n {
        NV::FuncCall { func, args } => native_free(*func) && natives_free(args),
        NV::Block(stmts) => natives_free(stmts),
        NV::If { condition, path_true, path_false } => native_free(*condition) && native_free(
            *path_true,
        ) && native_free(*path_false),
        NV::While { condition, body } => native_free(*condition) && native_free(*body),
        NV::Let(_, val) => native_free(*val),
        NV::Binary(_, l, r) => native_free(*l) && native_free(*r),
        NV::FuncDef { args_name, scope } => native_free(*scope),
        NV::FuncNativeDef(_) => false,
        NV::Array(elems) => natives_free(elems),
        _ => true,
    }
}

/// Whether none of the nodes of a sequence holds a host callback.
pub open spec fn natives_free(s: Seq<NV>) -> bool
    decreases s,
{
    s.len() == 0 || (native_free(s[0]) && natives_free(s.subrange(1, s.len() as int)))
}

/// Whether no value on the stack holds a host callback.
pub open spec fn binds_native_free(st: Binds) -> bool {
    forall|i: int| 0 <= i < st.len() ==> native_free(#[trigger] st[i].1)
}

/// Every node of a native-free sequence is native-free.
pub proof fn lemma_natives_free_index(s: Seq<NV>, i: int)
    requires
        natives_free(s),
        0 <= i < s.len(),
    ensures
        native_free(s[i]),
    decreases s.len(),
{
    if i > 0 {
        let rest = s.subrange(1, s.len() as int);
        lemma_natives_free_index(rest, i - 1);
        assert(rest[i - 1] == s[i]);
    }
}

/// A native-free suffix of a native-free sequence.
pub proof fn lemma_natives_free_subrange(s: Seq<NV>, a: int, b: int)
    requires
        natives_free(s),
        0 <= a <= b <= s.len(),
    ensures
        natives_free(s.subrange(a, b)),
    decreases b - a,
{
    if a < b {
        lemma_natives_free_index(s, a);
        let sub = s.subrange(a, b);
        assert(sub[0] == s[a]);
        lemma_natives_free_subrange(s, a + 1, b);
        assert(sub.subrange(1, sub.len() as int) =~= s.subrange(a + 1, b));
    }
}

/// The recursive characterization of a native-free sequence, pointwise.
pub proof fn lemma_natives_free_alt(s: Seq<NV>)
    ensures
        natives_free(s) <==> (forall|i: int| 0 <= i < s.len() ==> native_free(#[trigger] s[i])),
    decreases s.len(),
{
    if s.len() > 0 {
        let rest = s.subrange(1, s.len() as int);
        lemma_natives_free_alt(rest);
        if native_free(s[0]) && (forall|i: int|
            0 <= i < rest.len() ==> native_free(#[trigger] rest[i])) {
            assert forall|i: int| 0 <= i < s.len() implies native_free(#[trigger] s[i]) by {
                if i > 0 {
                    assert(rest[i - 1] == s[i]);
                }
            }
        }
        if forall|i: int| 0 <= i < s.len() ==> native_free(#[trigger] s[i]) {
            assert forall|i: int| 0 <= i < rest.len() implies native_free(
                #[trigger] rest[i],
            ) by {
                assert(rest[i] == s[i + 1]);
            }
        }
    }
}

/// Duplication of a native-free node over a native-free stack yields a
/// native-free node.
pub proof fn lemma_dup_native_free(excl: Seq<Seq<char>>, n: NV, st: Binds)
    requires
        native_free(n),
        binds_native_free(st),
    ensures
        native_free(dup_s(excl, n, st).0),
    decreases n,
{
    match n {
        NV::Block(stmts) => {
            lemma_dup_seq_native_free(excl, stmts, st);
        },
        NV::While { condition, body } => {
            lemma_dup_native_free(excl, *condition, st);
            lemma_dup_native_free(dup_s(excl, *condition, st).1, *body, st);
        },
        NV::FuncCall { func, args } => {
            lemma_dup_native_free(excl, *func, st);
            lemma_dup_seq_native_free(dup_s(excl, *func, st).1, args, st);
        },
        NV::FuncDef { args_name, scope } => {
            lemma_dup_native_free(excl, *scope, st);
        },
        NV::If { condition, path_true, path_false } => {
            let e1 = dup_s(excl, *condition, st).1;
            let e2 = dup_s(e1, *path_true, st).1;
            lemma_dup_native_free(excl, *condition, st);
            lemma_dup_native_free(e1, *path_true, st);
            lemma_dup_native_free(e2, *path_false, st);
        },
        NV::Get(name) => {
            crate::ctx::lemma_lookup_name(st, name);
        },
        NV::Let(nm, val) => {
            lemma_dup_native_free(excl, *val, st);
        },
        NV::Binary(op, l, r) => {
            lemma_dup_native_free(excl, *l, st);
            lemma_dup_native_free(dup_s(excl, *l, st).1, *r, st);
        },
        NV::Array(elems) => {
            lemma_dup_seq_native_free(excl, elems, st);
        },
        _ => {},
    }
}

/// Duplication of a native-free node list yields a native-free list.
pub proof fn lemma_dup_seq_native_free(excl: Seq<Seq<char>>, s: Seq<NV>, st: Binds)
    requires
        natives_free(s),
        binds_native_free(st),
    ensures
        natives_free(dup_seq_s(excl, s, st).0),
    decreases s,
{
    if s.len() > 0 {
        lemma_dup_native_free(excl, s[0], st);
        let e1 = dup_s(excl, s[0], st).1;
        let rest = s.subrange(1, s.len() as int);
        lemma_dup_seq_native_free(e1, rest, st);
        let d = dup_seq_s(excl, s, st).0;
        let h = dup_s(excl, s[0], st).0;
        let dr = dup_seq_s(e1, rest, st).0;
        lemma_natives_free_alt(dr);
        lemma_natives_free_alt(d);
        assert forall|i: int| 0 <= i < d.len() implies native_free(#[trigger] d[i]) by {
            if i > 0 {
                assert(d[i] == dr[i - 1]);
            }
        }
    }
}

/// The pure operator table on native-free operands yields a native-free
/// value.
pub proof fn lemma_apply_bin_native_free(op: crate::ast::Op, lv: NV, rv: NV)
    requires
        native_free(lv),
        native_free(rv),
    ensures
        native_free(crate::eval::apply_bin_s(op, lv, rv)),
{
    let out = crate::eval::apply_bin_s(op, lv, rv);
    match (op, lv, rv) {
        (crate::ast::Op::Plus2, NV::Array(a), NV::Array(b)) => {
            lemma_natives_free_alt(a);
            lemma_natives_free_alt(b);
            lemma_natives_free_alt(a + b);
        },
        (crate::ast::Op::Plus, NV::Array(a), _) => {
            if !(rv is Str) {
                lemma_natives_free_alt(a);
                lemma_natives_free_alt(a.push(rv));
            }
        },
        (crate::ast::Op::Plus, _, NV::Array(b)) => {
            if !(lv is Str) && !(lv is Array) {
                lemma_natives_free_alt(b);
                lemma_natives_free_alt(seq![lv] + b);
            }
        },
        _ => {},
    }
}

/// A native-free program over a native-free stack always has an outcome:
/// evaluation can reach no host callback, so the model is never `None`; the
/// result and the stack stay native-free, the budget never grows, and the
/// stack never shrinks below its entry length.
pub proof fn lemma_eval_total(n: NV, st: Binds, fuel: nat)
    requires
        native_free(n),
        binds_native_free(st),
    ensures
        eval_s(n, st, fuel) matches Some(t) && native_free(t.0) && binds_native_free(t.1)
            && t.2 <= fuel && t.1.len() >= st.len(),
    decreases fuel, crate::values::nv_size(n), 0int,
{
    match n {
        NV::If { condition, path_true, path_false } => {
            lemma_eval_total(*condition, st, fuel);
            let t1 = eval_s(*condition, st, fuel)->Some_0;
            if crate::values::truthy(t1.0) {
                lemma_eval_total(*path_true, t1.1, t1.2);
            } else {
                lemma_eval_total(*path_false, t1.1, t1.2);
            }
        },
        NV::While { condition, body } => {
            lemma_while_total(*condition, *body, st, fuel, NV::Unit);
        },
        NV::Block(stmts) => {
            lemma_block_total(stmts, st, fuel, NV::Unit);
            let t1 = crate::eval::eval_block_s(stmts, st, fuel, NV::Unit)->Some_0;
            assert forall|i: int| 0 <= i < st.len() implies native_free(
                #[trigger] t1.1.subrange(0, st.len() as int)[i].1,
            ) by {
                assert(t1.1.subrange(0, st.len() as int)[i] == t1.1[i]);
            }
        },
        NV::Let(name, val) => {
            lemma_eval_total(*val, st, fuel);
            let t1 = eval_s(*val, st, fuel)->Some_0;
            let st2 = t1.1.push((name, t1.0));
            assert forall|i: int| 0 <= i < st2.len() implies native_free(
                #[trigger] st2[i].1,
            ) by {
                if i < t1.1.len() {
                    assert(st2[i] == t1.1[i]);
                }
            }
        },
        NV::Get(name) => {
            crate::ctx::lemma_lookup_name(st, name);
        },
        NV::FuncCall { func, args } => {
            crate::values::lemma_nv_size_pos(*func);
            lemma_eval_total(*func, st, fuel);
            let t1 = eval_s(*func, st, fuel)->Some_0;
            lemma_call_total(t1.0, args, t1.1, t1.2);
        },
        NV::Binary(op, l, r) => {
            if op == crate::ast::Op::Assign {
                match *l {
                    NV::Get(name) => {
                        match lookup_name(st, name) {
                            Some(k) => {
                                crate::ctx::lemma_lookup_name(st, name);
                                lemma_eval_total(*r, st, fuel);
                                let t1 = eval_s(*r, st, fuel)->Some_0;
                                let st2 = t1.1.update(k, (name, t1.0));
                                assert forall|i: int| 0 <= i < st2.len() implies native_free(
                                    #[trigger] st2[i].1,
                                ) by {
                                    if i != k {
                                        assert(st2[i] == t1.1[i]);
                                    }
                                }
                            },
                            None => {},
                        }
                    },
                    _ => {},
                }
            } else {
                lemma_eval_total(*l, st, fuel);
                let t1 = eval_s(*l, st, fuel)->Some_0;
                lemma_eval_total(*r, t1.1, t1.2);
                let t2 = eval_s(*r, t1.1, t1.2)->Some_0;
                lemma_bin_vals_total(op, t1.0, t2.0, t2.1, t2.2);
            }
        },
        NV::FuncDef { args_name, scope } => {
            lemma_dup_native_free(args_name, *scope, st);
        },
        NV::Array(elems) => {
            lemma_elems_total(elems, st, fuel);
        },
        _ => {},
    }
}

/// The loop form of totality: a native-free `while` always has an outcome.
pub proof fn lemma_while_total(cond: NV, body: NV, st: Binds, fuel: nat, last: NV)
    requires
        native_free(cond),
        native_free(body),
        native_free(last),
        binds_native_free(st),
    ensures
        crate::eval::eval_while_s(cond, body, st, fuel, last) matches Some(t) && native_free(t.0)
            && binds_native_free(t.1) && t.2 <= fuel && t.1.len() >= st.len(),
    decreases fuel, crate::values::nv_size(cond) + crate::values::nv_size(body), 1int,
{
    lemma_eval_total(cond, st, fuel);
    let t1 = eval_s(cond, st, fuel)->Some_0;
    if crate::values::truthy(t1.0) && t1.2 > 0 {
        lemma_eval_total(body, t1.1, (t1.2 - 1) as nat);
        let t2 = eval_s(body, t1.1, (t1.2 - 1) as nat)->Some_0;
        lemma_while_total(cond, body, t2.1, t2.2, t2.0);
    }
}

/// Totality of a statement list.
pub proof fn lemma_block_total(stmts: Seq<NV>, st: Binds, fuel: nat, last: NV)
    requires
        natives_free(stmts),
        native_free(last),
        binds_native_free(st),
    ensures
        crate::eval::eval_block_s(stmts, st, fuel, last) matches Some(t) && native_free(t.0)
            && binds_native_free(t.1) && t.2 <= fuel && t.1.len() >= st.len(),
    decreases fuel, crate::values::nvs_size(stmts), 1int,
{
    if stmts.len() > 0 {
        crate::values::lemma_nvs_size_drop(stmts);
        lemma_eval_total(stmts[0], st, fuel);
        let t1 = eval_s(stmts[0], st, fuel)->Some_0;
        lemma_block_total(stmts.subrange(1, stmts.len() as int), t1.1, t1.2, t1.0);
    }
}

/// Totality of an expression list evaluated for its values.
pub proof fn lemma_elems_total(elems: Seq<NV>, st: Binds, fuel: nat)
    requires
        natives_free(elems),
        binds_native_free(st),
    ensures
        crate::eval::eval_elems_s(elems, st, fuel) matches Some(t) && natives_free(t.0)
            && binds_native_free(t.1) && t.2 <= fuel && t.1.len() >= st.len(),
    decreases fuel, crate::values::nvs_size(elems), 1int,
{
    if elems.len() > 0 {
        crate::values::lemma_nvs_size_drop(elems);
        lemma_eval_total(elems[0], st, fuel);
        let t1 = eval_s(elems[0], st, fuel)->Some_0;
        lemma_elems_total(elems.subrange(1, elems.len() as int), t1.1, t1.2);
        let t2 = crate::eval::eval_elems_s(
            elems.subrange(1, elems.len() as int),
            t1.1,
            t1.2,
        )->Some_0;
        lemma_natives_free_alt(t2.0);
        lemma_natives_free_alt(seq![t1.0] + t2.0);
    }
}

/// Totality of parameter binding.
pub proof fn lemma_bind_params_total(
    params: Seq<Seq<char>>,
    args: Seq<NV>,
    st: Binds,
    fuel: nat,
)
    requires
        natives_free(args),
        binds_native_free(st),
    ensures
        crate::eval::bind_params_s(params, args, st, fuel) matches Some(t)
            && binds_native_free(t.0) && t.1 <= fuel && t.0.len() >= st.len(),
    decreases fuel, crate::values::nvs_size(args) + params.len(), 1int,
{
    if params.len() == 0 {
    } else if args.len() == 0 {
        let st2 = st.push((params[0], NV::Unit));
        assert forall|i: int| 0 <= i < st2.len() implies native_free(#[trigger] st2[i].1) by {
            if i < st.len() {
                assert(st2[i] == st[i]);
            }
        }
        lemma_bind_params_total(params.subrange(1, params.len() as int), args, st2, fuel);
    } else {
        lemma_natives_free_alt(args);
        lemma_eval_total(args[0], st, fuel);
        let t1 = eval_s(args[0], st, fuel)->Some_0;
        let st2 = t1.1.push((params[0], t1.0));
        assert forall|i: int| 0 <= i < st2.len() implies native_free(#[trigger] st2[i].1) by {
            if i < t1.1.len() {
                assert(st2[i] == t1.1[i]);
            }
        }
        lemma_natives_free_subrange(args, 1, args.len() as int);
        lemma_bind_params_total(
            params.subrange(1, params.len() as int),
            args.subrange(1, args.len() as int),
            st2,
            t1.2,
        );
    }
}

/// Totality of the evaluation of extra arguments.
pub proof fn lemma_extra_total(extras: Seq<NV>, st: Binds, fuel: nat)
    requires
        natives_free(extras),
        binds_native_free(st),
    ensures
        crate::eval::eval_extra_s(extras, st, fuel) matches Some(t) && binds_native_free(t.0)
            && t.1 <= fuel && t.0.len() >= st.len(),
    decreases fuel, crate::values::nvs_size(extras), 1int,
{
    if extras.len() > 0 {
        crate::values::lemma_nvs_size_drop(extras);
        lemma_eval_total(extras[0], st, fuel);
        let t1 = eval_s(extras[0], st, fuel)->Some_0;
        lemma_natives_free_subrange(extras, 1, extras.len() as int);
        lemma_extra_total(extras.subrange(1, extras.len() as int), t1.1, t1.2);
    }
}

/// Totality of a call on a native-free callee value.
pub proof fn lemma_call_total(fv: NV, args: Seq<NV>, st: Binds, fuel: nat)
    requires
        native_free(fv),
        natives_free(args),
        binds_native_free(st),
    ensures
        crate::eval::eval_call_s(fv, args, st, fuel) matches Some(t) && native_free(t.0)
            && binds_native_free(t.1) && t.2 <= fuel && t.1.len() >= st.len(),
    decreases fuel, crate::values::nvs_size(args) + 1, 2int,
{
    match fv {
        NV::FuncDef { args_name, scope } => {
            if fuel > 0 {
                lemma_bind_params_total(args_name, args, st, (fuel - 1) as nat);
                let t1 = crate::eval::bind_params_s(args_name, args, st, (fuel - 1) as nat)
                    ->Some_0;
                let extras = if args_name.len() < args.len() {
                    args.subrange(args_name.len() as int, args.len() as int)
                } else {
                    Seq::empty()
                };
                if args_name.len() < args.len() {
                    lemma_natives_free_subrange(args, args_name.len() as int, args.len() as int);
                }
                lemma_extra_total(extras, t1.0, t1.1);
                let t2 = crate::eval::eval_extra_s(extras, t1.0, t1.1)->Some_0;
                lemma_eval_total(*scope, t2.0, t2.1);
                let t3 = eval_s(*scope, t2.0, t2.1)->Some_0;
                assert forall|i: int| 0 <= i < st.len() implies native_free(
                    #[trigger] t3.1.subrange(0, st.len() as int)[i].1,
                ) by {
                    assert(t3.1.subrange(0, st.len() as int)[i] == t3.1[i]);
                }
            }
        },
        NV::Array(elems) => {
            if args.len() == 0 {
            } else {
                lemma_natives_free_alt(args);
                lemma_eval_total(args[0], st, fuel);
                let t1 = eval_s(args[0], st, fuel)->Some_0;
                match t1.0 {
                    NV::Num(bits) => {
                        let idx = crate::eval::array_index_of(bits, elems.len());
                        if 0 <= idx < elems.len() {
                            lemma_natives_free_alt(elems);
                        }
                    },
                    NV::FuncDef { args_name, scope } => {
                        if t1.2 > 0 {
                            lemma_map_total(
                                elems,
                                0,
                                Seq::empty(),
                                args_name,
                                *scope,
                                t1.1,
                                (t1.2 - 1) as nat,
                            );
                        }
                    },
                    _ => {},
                }
            }
        },
        _ => {},
    }
}

/// Totality of mapping over a native-free array.
pub proof fn lemma_map_total(
    elems: Seq<NV>,
    idx: nat,
    acc: Seq<NV>,
    params: Seq<Seq<char>>,
    scope: NV,
    st: Binds,
    fuel: nat,
)
    requires
        natives_free(elems),
        natives_free(acc),
        native_free(scope),
        binds_native_free(st),
    ensures
        crate::eval::eval_map_s(elems, idx, acc, params, scope, st, fuel) matches Some(t)
            && native_free(t.0) && binds_native_free(t.1) && t.2 <= fuel && t.1.len()
            >= st.len(),
    decreases fuel, elems.len(), 1int,
{
    if elems.len() > 0 && fuel > 0 {
        lemma_natives_free_alt(elems);
        let st1 = crate::eval::elem_binds(
            st,
            params,
            elems[0],
            NV::Num(crate::numerics::num_of_count(idx as u64)),
        );
        lemma_elem_binds_native_free(
            st,
            params,
            elems[0],
            NV::Num(crate::numerics::num_of_count(idx as u64)),
        );
        lemma_eval_total(scope, st1, (fuel - 1) as nat);
        let t1 = eval_s(scope, st1, (fuel - 1) as nat)->Some_0;
        lemma_natives_free_alt(acc);
        lemma_natives_free_alt(acc.push(t1.0));
        lemma_natives_free_subrange(elems, 1, elems.len() as int);
        assert forall|i: int| 0 <= i < st.len() implies native_free(
            #[trigger] t1.1.subrange(0, st.len() as int)[i].1,
        ) by {
            assert(t1.1.subrange(0, st.len() as int)[i] == t1.1[i]);
        }
        lemma_map_total(
            elems.subrange(1, elems.len() as int),
            idx + 1,
            acc.push(t1.0),
            params,
            scope,
            t1.1.subrange(0, st.len() as int),
            t1.2,
        );
    } else if elems.len() == 0 {
        lemma_natives_free_alt(acc);
    }
}

/// The element-wise bindings of a native-free element keep the stack
/// native-free.
pub proof fn lemma_elem_binds_native_free(
    st: Binds,
    params: Seq<Seq<char>>,
    first: NV,
    second: NV,
)
    requires
        binds_native_free(st),
        native_free(first),
        native_free(second),
    ensures
        binds_native_free(crate::eval::elem_binds(st, params, first, second)),
        crate::eval::elem_binds(st, params, first, second).len() >= st.len(),
{
    let st2 = crate::eval::elem_binds(st, params, first, second);
    assert forall|i: int| 0 <= i < st2.len() implies native_free(#[trigger] st2[i].1) by {
        if i < st.len() {
            if params.len() >= 2 {
                assert(st2[i] == st.push((params[0], first)).push((params[1], second))[i]);
                assert(st2[i] == st[i]);
            } else if params.len() == 1 {
                assert(st2[i] == st[i]);
            }
        } else if params.len() >= 2 && i == st.len() {
            assert(st2[i].1 == first);
        }
    }
}

/// Totality of filtering a native-free array.
pub proof fn lemma_filter_total(
    elems: Seq<NV>,
    idx: nat,
    acc: Seq<NV>,
    params: Seq<Seq<char>>,
    scope: NV,
    st: Binds,
    fuel: nat,
)
    requires
        natives_free(elems),
        natives_free(acc),
        native_free(scope),
        binds_native_free(st),
    ensures
        crate::eval::eval_filter_s(elems, idx, acc, params, scope, st, fuel) matches Some(t)
            && native_free(t.0) && binds_native_free(t.1) && t.2 <= fuel && t.1.len()
            >= st.len(),
    decreases fuel, elems.len(), 1int,
{
    if elems.len() > 0 && fuel > 0 {
        lemma_natives_free_alt(elems);
        let st1 = crate::eval::elem_binds(
            st,
            params,
            elems[0],
            NV::Num(crate::numerics::num_of_count(idx as u64)),
        );
        lemma_elem_binds_native_free(
            st,
            params,
            elems[0],
            NV::Num(crate::numerics::num_of_count(idx as u64)),
        );
        lemma_eval_total(scope, st1, (fuel - 1) as nat);
        let t1 = eval_s(scope, st1, (fuel - 1) as nat)->Some_0;
        let acc2 = if crate::values::truthy(t1.0) {
            acc.push(elems[0])
        } else {
            acc
        };
        lemma_natives_free_alt(acc);
        lemma_natives_free_alt(acc2);
        lemma_natives_free_subrange(elems, 1, elems.len() as int);
        assert forall|i: int| 0 <= i < st.len() implies native_free(
            #[trigger] t1.1.subrange(0, st.len() as int)[i].1,
        ) by {
            assert(t1.1.subrange(0, st.len() as int)[i] == t1.1[i]);
        }
        lemma_filter_total(
            elems.subrange(1, elems.len() as int),
            idx + 1,
            acc2,
            params,
            scope,
            t1.1.subrange(0, st.len() as int),
            t1.2,
        );
    } else if elems.len() == 0 {
        lemma_natives_free_alt(acc);
    }
}

/// Totality of folding a native-free array.
pub proof fn lemma_fold_total(
    elems: Seq<NV>,
    acc: NV,
    params: Seq<Seq<char>>,
    scope: NV,
    st: Binds,
    fuel: nat,
)
    requires
        natives_free(elems),
        native_free(acc),
        native_free(scope),
        binds_native_free(st),
    ensures
        crate::eval::eval_fold_s(elems, acc, params, scope, st, fuel) matches Some(t)
            && native_free(t.0) && binds_native_free(t.1) && t.2 <= fuel && t.1.len()
            >= st.len(),
    decreases fuel, elems.len(), 1int,
{
    if elems.len() > 0 && fuel > 0 {
        lemma_natives_free_alt(elems);
        let st1 = crate::eval::elem_binds(st, params, acc, elems[0]);
        lemma_elem_binds_native_free(st, params, acc, elems[0]);
        lemma_eval_total(scope, st1, (fuel - 1) as nat);
        let t1 = eval_s(scope, st1, (fuel - 1) as nat)->Some_0;
        lemma_natives_free_subrange(elems, 1, elems.len() as int);
        assert forall|i: int| 0 <= i < st.len() implies native_free(
            #[trigger] t1.1.subrange(0, st.len() as int)[i].1,
        ) by {
            assert(t1.1.subrange(0, st.len() as int)[i] == t1.1[i]);
        }
        lemma_fold_total(
            elems.subrange(1, elems.len() as int),
            t1.0,
            params,
            scope,
            t1.1.subrange(0, st.len() as int),
            t1.2,
        );
    }
}

/// Totality of a binary operator on native-free values.
pub proof fn lemma_bin_vals_total(op: crate::ast::Op, lv: NV, rv: NV, st: Binds, fuel: nat)
    requires
        native_free(lv),
        native_free(rv),
        binds_native_free(st),
    ensures
        crate::eval::eval_bin_vals_s(op, lv, rv, st, fuel) matches Some(t) && native_free(t.0)
            && binds_native_free(t.1) && t.2 <= fuel && t.1.len() >= st.len(),
    decreases fuel, 0int, 2int,
{
    match (op, lv, rv) {
        (crate::ast::Op::And, NV::Array(elems), NV::FuncDef { args_name, scope }) => {
            if fuel > 0 {
                lemma_filter_total(
                    elems,
                    0,
                    Seq::empty(),
                    args_name,
                    *scope,
                    st,
                    (fuel - 1) as nat,
                );
            }
        },
        (crate::ast::Op::Or, NV::Array(elems), NV::FuncDef { args_name, scope }) => {
            if elems.len() > 0 && fuel > 0 {
                lemma_natives_free_alt(elems);
                lemma_natives_free_subrange(elems, 1, elems.len() as int);
                lemma_fold_total(
                    elems.subrange(1, elems.len() as int),
                    elems[0],
                    args_name,
                    *scope,
                    st,
                    (fuel - 1) as nat,
                );
            }
        },
        _ => {
            lemma_apply_bin_native_free(op, lv, rv);
        },
    }
}

/// A parsed factor holds no host callback: no syntax denotes one.
#[verifier::rlimit(100)]
#[verifier::spinoff_prover]
pub proof fn lemma_parse_factor_nf(code: Seq<char>, i: int)
    ensures
        crate::parser::parse_factor_s(code, i) matches Ok(p) ==> native_free(p.0),
    decreases code.len() - i, 0int,
{
    if i < code.len() {
        let (tok, j) = crate::lexer::next_token_s(code, i);
        if i < j <= code.len() {
            match tok {
                crate::lexer::TokenV::BlockStart => {
                    lemma_parse_stmts_nf(code, j);
                },
                crate::lexer::TokenV::ArrayStart => {
                    lemma_parse_elems_nf(code, j);
                },
                crate::lexer::TokenV::ParStart => {
                    let (params, k) = crate::parser::parse_params_s(code, j);
                    let (t2, m) = crate::lexer::next_token_s(code, k);
                    if t2 is Assoc && i < m <= code.len() {
                        lemma_parse_expr_nf(code, m);
                    }
                },
                crate::lexer::TokenV::While => {
                    lemma_parse_expr_nf(code, j);
                    match crate::parser::parse_expr_s(code, j) {
                        Ok((cond, p)) => {
                            if i < p <= code.len() {
                                lemma_parse_expr_nf(code, p);
                            }
                        },
                        Err(_) => {},
                    }
                },
                crate::lexer::TokenV::If => {
                    assert(native_free(NV::Unit));
                    lemma_parse_expr_nf(code, j);
                    match crate::parser::parse_expr_s(code, j) {
                        Ok((cond, p)) => {
                            if i < p <= code.len() {
                                lemma_parse_expr_nf(code, p);
                                match crate::parser::parse_expr_s(code, p) {
                                    Ok((tbr, q)) => {
                                        let (t2, r) = crate::lexer::next_token_s(code, q);
                                        if t2 is Else && i < r <= code.len() {
                                            lemma_parse_expr_nf(code, r);
                                        }
                                    },
                                    Err(_) => {},
                                }
                            }
                        },
                        Err(_) => {},
                    }
                },
                crate::lexer::TokenV::Let(name) => {
                    lemma_parse_expr_nf(code, j);
                },
                _ => {},
            }
        }
    }
}

/// A parsed term holds no host callback.
pub proof fn lemma_parse_term_nf(code: Seq<char>, i: int)
    ensures
        crate::parser::parse_term_s(code, i) matches Ok(p) ==> native_free(p.0),
    decreases code.len() - i, 1int,
{
    lemma_parse_factor_nf(code, i);
    match crate::parser::parse_factor_s(code, i) {
        Ok((factor, i2)) => {
            let (tok, j) = crate::lexer::next_token_s(code, i2);
            match tok {
                crate::lexer::TokenV::Bin(op) => {
                    if (op == crate::ast::Op::Mul || op == crate::ast::Op::Div) && i < j
                        <= code.len() {
                        lemma_parse_term_nf(code, j);
                    }
                },
                crate::lexer::TokenV::ParStart => {
                    if i < j <= code.len() {
                        lemma_parse_args_nf(code, j);
                    }
                },
                _ => {},
            }
        },
        Err(_) => {},
    }
}

/// A parsed expression holds no host callback.
pub proof fn lemma_parse_expr_nf(code: Seq<char>, i: int)
    ensures
        crate::parser::parse_expr_s(code, i) matches Ok(p) ==> native_free(p.0),
    decreases code.len() - i, 2int,
{
    lemma_parse_term_nf(code, i);
    match crate::parser::parse_term_s(code, i) {
        Ok((term, i2)) => {
            let (tok, j) = crate::lexer::next_token_s(code, i2);
            match tok {
                crate::lexer::TokenV::Bin(op) => {
                    if i < j <= code.len() {
                        lemma_parse_expr_nf(code, j);
                    }
                },
                _ => {},
            }
        },
        Err(_) => {},
    }
}

/// A parsed statement list holds no host callback.
pub proof fn lemma_parse_stmts_nf(code: Seq<char>, i: int)
    ensures
        natives_free(crate::parser::parse_stmts_s(code, i).0),
    decreases code.len() - i, 3int,
{
    lemma_parse_expr_nf(code, i);
    match crate::parser::parse_expr_s(code, i) {
        Ok((e, p)) => {
            if i < p <= code.len() {
                lemma_parse_stmts_nf(code, p);
                let rest = crate::parser::parse_stmts_s(code, p).0;
                lemma_natives_free_alt(rest);
                lemma_natives_free_alt(seq![e] + rest);
            } else {
                lemma_natives_free_alt(seq![e]);
            }
        },
        Err(_) => {},
    }
}

/// A parsed call-argument list holds no host callback.
pub proof fn lemma_parse_args_nf(code: Seq<char>, i: int)
    ensures
        natives_free(crate::parser::parse_args_s(code, i).0),
    decreases code.len() - i, 3int,
{
    lemma_parse_expr_nf(code, i);
    match crate::parser::parse_expr_s(code, i) {
        Ok((e, p)) => {
            let (tok, k) = crate::lexer::next_token_s(code, p);
            let nxt = if tok is Comma {
                k
            } else {
                p
            };
            if i < nxt <= code.len() {
                lemma_parse_args_nf(code, nxt);
                let rest = crate::parser::parse_args_s(code, nxt).0;
                lemma_natives_free_alt(rest);
                lemma_natives_free_alt(seq![e] + rest);
            } else {
                lemma_natives_free_alt(seq![e]);
            }
        },
        Err(_) => {},
    }
}

/// A parsed array-element list holds no host callback.
pub proof fn lemma_parse_elems_nf(code: Seq<char>, i: int)
    ensures
        natives_free(crate::parser::parse_elems_s(code, i).0),
    decreases code.len() - i, 3int,
{
    lemma_parse_expr_nf(code, i);
    match crate::parser::parse_expr_s(code, i) {
        Ok((e, p)) => {
            if i < p <= code.len() {
                lemma_parse_elems_nf(code, p);
                let rest = crate::parser::parse_elems_s(code, p).0;
                lemma_natives_free_alt(rest);
                lemma_natives_free_alt(seq![e] + rest);
            } else {
                lemma_natives_free_alt(seq![e]);
            }
        },
        Err(_) => {
            let (tok, k) = crate::lexer::next_token_s(code, i);
            if tok is Comma && i < k <= code.len() {
                lemma_parse_elems_nf(code, k);
            }
        },
    }
}

/// A whole session over plain text always has an outcome: parsed programs
/// hold no host callback, and a native-free state stays native-free.
pub proof fn lemma_run_total(code: Seq<char>, st: Binds, last: NV)
    requires
        binds_native_free(st),
        native_free(last),
    ensures
        crate::eval::run_s(code, st, last) matches Some(t) && native_free(t.0),
    decreases code.len(),
{
    match crate::parser::parse_expr_s(code, 0) {
        Err(_) => {},
        Ok((nv, used)) => {
            if 0 < used <= code.len() {
                lemma_parse_expr_nf(code, 0);
                lemma_eval_total(nv, st, u64::MAX as nat);
                let t = eval_s(nv, st, u64::MAX as nat)->Some_0;
                lemma_run_total(code.subrange(used, code.len() as int), t.1, t.0);
            }
        },
    }
}

} // verus!
