//! The evaluator: a function from a node and an execution state to a value
//! and a new state. Dynamic type mismatches, unknown variables, missing call
//! arguments and out-of-range array access all resolve to the unit value
//! rather than to an error. Evaluation is measured against a step budget
//! (`fuel`): one step is charged per function call, per loop iteration and
//! per element-wise function application, and an exhausted budget yields the
//! unit value. The public entry points use the largest budget there is.
//!
//! The model `eval_s` returns `None` exactly where a host callback is
//! invoked: what such a callback returns is outside the verified boundary,
//! and the executable evaluator is proved to agree with the model on every
//! run that does not reach one.
use vstd::prelude::*;

use crate::ast::{ident_views, lemma_seq_view, lemma_seq_view_push, seq_view, Op, N, NV};
use crate::ctx::{lookup_name, Binds, Ctx};
use crate::dup::{dup, dup_s};
use crate::numerics::{add_bits, div_bits, mul_bits, num_eq, num_lt, num_of_count, rem_bits,
    sub_bits, exec_add, exec_div, exec_mul, exec_num_eq, exec_num_lt, exec_num_of_count,
    exec_rem, exec_sub};
use crate::values::{bool_n, bool_nv, lemma_nvs_size_drop, lemma_nvs_size_index, num_trunc,
    nv_size, nvs_size, text_of, truthy, exec_num_trunc};

verus! {

/// What evaluation yields: the value, the state, and the fuel that is left —
/// or `None` where a host callback was invoked.
pub type Outcome = Option<(NV, Binds, nat)>;

/// The pure binary-operator table, applied once both operands are values:
/// arithmetic and comparison on two numbers, concatenation when either side
/// is a string, append or prepend when one side is an array, boolean `&`
/// and `|` on truthiness, and the unit value for every other combination.
pub open spec fn apply_bin_s(op: Op, lv: NV, rv: NV) -> NV {
    match (op, lv, rv) {
        (Op::Plus, NV::Num(a), NV::Num(b)) => NV::Num(add_bits(a, b)),
        (Op::Greater, NV::Num(a), NV::Num(b)) => bool_nv(num_lt(b, a)),
        (Op::Lesser, NV::Num(a), NV::Num(b)) => bool_nv(num_lt(a, b)),
        (Op::Equals, NV::Num(a), NV::Num(b)) => bool_nv(num_eq(a, b)),
        (Op::Equals, NV::Str(a), NV::Str(b)) => bool_nv(a == b),
        (Op::NotEquals, NV::Num(a), NV::Num(b)) => bool_nv(!num_eq(a, b)),
        (Op::NotEquals, NV::Str(a), NV::Str(b)) => bool_nv(a != b),
        (Op::Minus, NV::Num(a), NV::Num(b)) => NV::Num(sub_bits(a, b)),
        (Op::Mul, NV::Num(a), NV::Num(b)) => NV::Num(mul_bits(a, b)),
        (Op::Div, NV::Num(a), NV::Num(b)) => NV::Num(div_bits(a, b)),
        (Op::Modulus, NV::Num(a), NV::Num(b)) => NV::Num(rem_bits(a, b)),
        (Op::Plus, NV::Str(a), _) => NV::Str(a + text_of(rv)),
        (Op::Plus, _, NV::Str(b)) => NV::Str(text_of(lv) + b),
        (Op::Plus2, NV::Array(a), NV::Array(b)) => NV::Array(a + b),
        (Op::Plus, NV::Array(a), _) => NV::Array(a.push(rv)),
        (Op::Plus, _, NV::Array(b)) => NV::Array(seq![lv] + b),
        (Op::And, _, _) => bool_nv(truthy(lv) && truthy(rv)),
        (Op::Or, _, _) => bool_nv(truthy(lv) || truthy(rv)),
        _ => NV::Unit,
    }
}

/// The index an array call reads from a number: truncation toward zero, a
/// negative index wrapping once from the end.
pub open spec fn array_index_of(bits: u64, len: nat) -> int {
    let t = num_trunc(bits);
    if t < 0 {
        len + t
    } else {
        t
    }
}

/// Whether a computed value, state and fuel agree with an outcome.
pub open spec fn agrees(m: Outcome, v: NV, st: Binds, f: nat) -> bool {
    match m {
        Some(t) => v == t.0 && st == t.1 && f == t.2,
        None => true,
    }
}

/// Evaluation of one node.
pub open spec fn eval_s(n: NV, st: Binds, fuel: nat) -> Outcome
    decreases fuel, nv_size(n), 0int,
{
    match n {
        NV::If { condition, path_true, path_false } => {
            match eval_s(*condition, st, fuel) {
                None => None,
                Some((cv, st1, f1)) => {
                    if f1 <= fuel {
                        if truthy(cv) {
                            eval_s(*path_true, st1, f1)
                        } else {
                            eval_s(*path_false, st1, f1)
                        }
                    } else {
                        None
                    }
                },
            }
        },
        NV::While { condition, body } => eval_while_s(*condition, *body, st, fuel, NV::Unit),
        NV::Block(stmts) => {
            match eval_block_s(stmts, st, fuel, NV::Unit) {
                None => None,
                Some((v, st1, f1)) => {
                    if st.len() <= st1.len() {
                        Some((v, st1.subrange(0, st.len() as int), f1))
                    } else {
                        None
                    }
                },
            }
        },
        NV::Let(name, val) => {
            match eval_s(*val, st, fuel) {
                None => None,
                Some((v, st1, f1)) => Some((NV::Unit, st1.push((name, v)), f1)),
            }
        },
        NV::Get(name) => {
            match lookup_name(st, name) {
                Some(i) => Some((st[i].1, st, fuel)),
                None => Some((NV::Unit, st, fuel)),
            }
        },
        NV::FuncCall { func, args } => {
            match eval_s(*func, st, fuel) {
                None => None,
                Some((fv, st1, f1)) => {
                    if f1 <= fuel {
                        eval_call_s(fv, args, st1, f1)
                    } else {
                        None
                    }
                },
            }
        },
        NV::Binary(op, l, r) => {
            if op == Op::Assign {
                match *l {
                    NV::Get(name) => {
                        match lookup_name(st, name) {
                            Some(k) => {
                                match eval_s(*r, st, fuel) {
                                    None => None,
                                    Some((rv, st1, f1)) => {
                                        if 0 <= k < st1.len() {
                                            Some((NV::Unit, st1.update(k, (name, rv)), f1))
                                        } else {
                                            None
                                        }
                                    },
                                }
                            },
                            None => Some((NV::Unit, st, fuel)),
                        }
                    },
                    _ => Some((NV::Unit, st, fuel)),
                }
            } else {
                match eval_s(*l, st, fuel) {
                    None => None,
                    Some((lv, st1, f1)) => {
                        if f1 <= fuel {
                            match eval_s(*r, st1, f1) {
                                None => None,
                                Some((rv, st2, f2)) => {
                                    if f2 <= fuel {
                                        eval_bin_vals_s(op, lv, rv, st2, f2)
                                    } else {
                                        None
                                    }
                                },
                            }
                        } else {
                            None
                        }
                    },
                }
            }
        },
        NV::FuncDef { args_name, scope } => Some(
            (
                NV::FuncDef { args_name, scope: Box::new(dup_s(args_name, *scope, st).0) },
                st,
                fuel,
            ),
        ),
        NV::Array(elems) => {
            match eval_elems_s(elems, st, fuel) {
                None => None,
                Some((vals, st1, f1)) => Some((NV::Array(vals), st1, f1)),
            }
        },
        _ => Some((n, st, fuel)),
    }
}

/// A `while` loop: while the condition is truthy, the body runs again; the
/// result is the last body result, or the unit value for a loop never
/// entered. One step is charged per iteration.
pub open spec fn eval_while_s(cond: NV, body: NV, st: Binds, fuel: nat, last: NV) -> Outcome
    decreases fuel, nv_size(cond) + nv_size(body), 1int,
{
    match eval_s(cond, st, fuel) {
        None => None,
        Some((cv, st1, f1)) => {
            if f1 <= fuel {
                if !truthy(cv) {
                    Some((last, st1, f1))
                } else if f1 == 0 {
                    Some((NV::Unit, st1, 0))
                } else {
                    match eval_s(body, st1, (f1 - 1) as nat) {
                        None => None,
                        Some((bv, st2, f2)) => {
                            if f2 <= f1 - 1 {
                                eval_while_s(cond, body, st2, f2, bv)
                            } else {
                                None
                            }
                        },
                    }
                }
            } else {
                None
            }
        },
    }
}

/// A statement list: each statement in order, keeping the last result.
pub open spec fn eval_block_s(stmts: Seq<NV>, st: Binds, fuel: nat, last: NV) -> Outcome
    decreases fuel, nvs_size(stmts), 1int,
        via eval_block_s_dec
{
    if stmts.len() == 0 {
        Some((last, st, fuel))
    } else {
        match eval_s(stmts[0], st, fuel) {
            None => None,
            Some((v, st1, f1)) => {
                if f1 <= fuel {
                    eval_block_s(stmts.subrange(1, stmts.len() as int), st1, f1, v)
                } else {
                    None
                }
            },
        }
    }
}

#[via_fn]
proof fn eval_block_s_dec(stmts: Seq<NV>, st: Binds, fuel: nat, last: NV) {
    if stmts.len() > 0 {
        lemma_nvs_size_drop(stmts);
    }
}

/// An expression list evaluated in order, keeping every value: array
/// literals, and the arguments of a native call.
pub open spec fn eval_elems_s(elems: Seq<NV>, st: Binds, fuel: nat) -> Option<
    (Seq<NV>, Binds, nat),
>
    decreases fuel, nvs_size(elems), 1int,
        via eval_elems_s_dec
{
    if elems.len() == 0 {
        Some((Seq::empty(), st, fuel))
    } else {
        match eval_s(elems[0], st, fuel) {
            None => None,
            Some((v, st1, f1)) => {
                if f1 <= fuel {
                    match eval_elems_s(elems.subrange(1, elems.len() as int), st1, f1) {
                        None => None,
                        Some((vs, st2, f2)) => Some((seq![v] + vs, st2, f2)),
                    }
                } else {
                    None
                }
            },
        }
    }
}

#[via_fn]
proof fn eval_elems_s_dec(elems: Seq<NV>, st: Binds, fuel: nat) {
    if elems.len() > 0 {
        lemma_nvs_size_drop(elems);
    }
}

/// Binds one parameter per declared name, evaluating the matching argument
/// — under the stack as bound so far — or the unit value where the call
/// supplied fewer arguments.
pub open spec fn bind_params_s(params: Seq<Seq<char>>, args: Seq<NV>, st: Binds, fuel: nat) -> Option<
    (Binds, nat),
>
    decreases fuel, nvs_size(args) + params.len(), 1int,
{
    if params.len() == 0 {
        Some((st, fuel))
    } else if args.len() == 0 {
        bind_params_s(
            params.subrange(1, params.len() as int),
            args,
            st.push((params[0], NV::Unit)),
            fuel,
        )
    } else {
        match eval_s(args[0], st, fuel) {
            None => None,
            Some((v, st1, f1)) => {
                if f1 <= fuel {
                    bind_params_s(
                        params.subrange(1, params.len() as int),
                        args.subrange(1, args.len() as int),
                        st1.push((params[0], v)),
                        f1,
                    )
                } else {
                    None
                }
            },
        }
    }
}

/// Arguments beyond the declared parameters, evaluated in order for their
/// effects and discarded.
pub open spec fn eval_extra_s(extras: Seq<NV>, st: Binds, fuel: nat) -> Option<(Binds, nat)>
    decreases fuel, nvs_size(extras), 1int,
        via eval_extra_s_dec
{
    if extras.len() == 0 {
        Some((st, fuel))
    } else {
        match eval_s(extras[0], st, fuel) {
            None => None,
            Some((v, st1, f1)) => {
                if f1 <= fuel {
                    eval_extra_s(extras.subrange(1, extras.len() as int), st1, f1)
                } else {
                    None
                }
            },
        }
    }
}

#[via_fn]
proof fn eval_extra_s_dec(extras: Seq<NV>, st: Binds, fuel: nat) {
    if extras.len() > 0 {
        lemma_nvs_size_drop(extras);
    }
}

/// A call, dispatched on the shape of the callee value: a native callback,
/// a function value, an array — indexing, mapping or its length — or, for
/// anything else, the unit value.
pub open spec fn eval_call_s(fv: NV, args: Seq<NV>, st: Binds, fuel: nat) -> Outcome
    decreases fuel, nvs_size(args) + 1, 2int,
{
    match fv {
        NV::FuncNativeDef(_) => {
            match eval_elems_s(args, st, fuel) {
                None => None,
                Some(_) => None,
            }
        },
        NV::FuncDef { args_name, scope } => {
            if fuel == 0 {
                Some((NV::Unit, st, 0))
            } else {
                match bind_params_s(args_name, args, st, (fuel - 1) as nat) {
                    None => None,
                    Some((st1, f1)) => {
                        if f1 <= fuel - 1 {
                            let extras = if args_name.len() < args.len() {
                                args.subrange(args_name.len() as int, args.len() as int)
                            } else {
                                Seq::empty()
                            };
                            match eval_extra_s(extras, st1, f1) {
                                None => None,
                                Some((st2, f2)) => {
                                    if f2 <= fuel - 1 {
                                        match eval_s(*scope, st2, f2) {
                                            None => None,
                                            Some((rv, st3, f3)) => {
                                                if st.len() <= st3.len() {
                                                    Some(
                                                        (
                                                            rv,
                                                            st3.subrange(0, st.len() as int),
                                                            f3,
                                                        ),
                                                    )
                                                } else {
                                                    None
                                                }
                                            },
                                        }
                                    } else {
                                        None
                                    }
                                },
                            }
                        } else {
                            None
                        }
                    },
                }
            }
        },
        NV::Array(elems) => {
            if args.len() == 0 {
                Some((NV::Num(num_of_count(elems.len() as u64)), st, fuel))
            } else {
                match eval_s(args[0], st, fuel) {
                    None => None,
                    Some((iv, st1, f1)) => {
                        if f1 <= fuel {
                            match iv {
                                NV::Num(bits) => {
                                    let idx = array_index_of(bits, elems.len());
                                    if 0 <= idx < elems.len() {
                                        Some((elems[idx], st1, f1))
                                    } else {
                                        Some((NV::Unit, st1, f1))
                                    }
                                },
                                NV::FuncDef { args_name, scope } => {
                                    if f1 == 0 {
                                        Some((NV::Unit, st1, 0))
                                    } else {
                                        eval_map_s(
                                            elems,
                                            0,
                                            Seq::empty(),
                                            args_name,
                                            *scope,
                                            st1,
                                            (f1 - 1) as nat,
                                        )
                                    }
                                },
                                _ => Some((NV::Unit, st1, f1)),
                            }
                        } else {
                            None
                        }
                    },
                }
            }
        },
        _ => Some((NV::Unit, st, fuel)),
    }
}

/// The bindings an element-wise application pushes: the element under the
/// first parameter name, a second value under the second, where declared.
pub open spec fn elem_binds(st: Binds, params: Seq<Seq<char>>, first: NV, second: NV) -> Binds {
    if params.len() >= 2 {
        st.push((params[0], first)).push((params[1], second))
    } else if params.len() == 1 {
        st.push((params[0], first))
    } else {
        st
    }
}

/// Mapping a function over an array: one application per element, of the
/// element and its index, collecting the results.
pub open spec fn eval_map_s(
    elems: Seq<NV>,
    idx: nat,
    acc: Seq<NV>,
    params: Seq<Seq<char>>,
    scope: NV,
    st: Binds,
    fuel: nat,
) -> Outcome
    decreases fuel, elems.len(), 1int,
{
    if elems.len() == 0 {
        Some((NV::Array(acc), st, fuel))
    } else if fuel == 0 {
        Some((NV::Unit, st, 0))
    } else {
        let st1 = elem_binds(st, params, elems[0], NV::Num(num_of_count(idx as u64)));
        match eval_s(scope, st1, (fuel - 1) as nat) {
            None => None,
            Some((rv, st2, f2)) => {
                if f2 <= fuel - 1 && st.len() <= st2.len() {
                    eval_map_s(
                        elems.subrange(1, elems.len() as int),
                        idx + 1,
                        acc.push(rv),
                        params,
                        scope,
                        st2.subrange(0, st.len() as int),
                        f2,
                    )
                } else {
                    None
                }
            },
        }
    }
}

/// Filtering an array by a function: one application per element, of the
/// element and its index, keeping the elements whose application is truthy.
pub open spec fn eval_filter_s(
    elems: Seq<NV>,
    idx: nat,
    acc: Seq<NV>,
    params: Seq<Seq<char>>,
    scope: NV,
    st: Binds,
    fuel: nat,
) -> Outcome
    decreases fuel, elems.len(), 1int,
{
    if elems.len() == 0 {
        Some((NV::Array(acc), st, fuel))
    } else if fuel == 0 {
        Some((NV::Unit, st, 0))
    } else {
        let st1 = elem_binds(st, params, elems[0], NV::Num(num_of_count(idx as u64)));
        match eval_s(scope, st1, (fuel - 1) as nat) {
            None => None,
            Some((rv, st2, f2)) => {
                if f2 <= fuel - 1 && st.len() <= st2.len() {
                    let acc2 = if truthy(rv) {
                        acc.push(elems[0])
                    } else {
                        acc
                    };
                    eval_filter_s(
                        elems.subrange(1, elems.len() as int),
                        idx + 1,
                        acc2,
                        params,
                        scope,
                        st2.subrange(0, st.len() as int),
                        f2,
                    )
                } else {
                    None
                }
            },
        }
    }
}

/// Folding an array by a function, left to right: the accumulator starts at
/// the first element, and each application takes the accumulator and the
/// next element.
pub open spec fn eval_fold_s(
    elems: Seq<NV>,
    acc: NV,
    params: Seq<Seq<char>>,
    scope: NV,
    st: Binds,
    fuel: nat,
) -> Outcome
    decreases fuel, elems.len(), 1int,
{
    if elems.len() == 0 {
        Some((acc, st, fuel))
    } else if fuel == 0 {
        Some((NV::Unit, st, 0))
    } else {
        let st1 = elem_binds(st, params, acc, elems[0]);
        match eval_s(scope, st1, (fuel - 1) as nat) {
            None => None,
            Some((rv, st2, f2)) => {
                if f2 <= fuel - 1 && st.len() <= st2.len() {
                    eval_fold_s(
                        elems.subrange(1, elems.len() as int),
                        rv,
                        params,
                        scope,
                        st2.subrange(0, st.len() as int),
                        f2,
                    )
                } else {
                    None
                }
            },
        }
    }
}

/// A binary operator applied to two values: the array-and-function forms of
/// `&` and `|` — filter and fold — and otherwise the pure operator table.
pub open spec fn eval_bin_vals_s(op: Op, lv: NV, rv: NV, st: Binds, fuel: nat) -> Outcome
    decreases fuel, 0int, 2int,
{
    match (op, lv, rv) {
        (Op::And, NV::Array(elems), NV::FuncDef { args_name, scope }) => {
            if fuel == 0 {
                Some((NV::Unit, st, 0))
            } else {
                eval_filter_s(elems, 0, Seq::empty(), args_name, *scope, st, (fuel - 1) as nat)
            }
        },
        (Op::Or, NV::Array(elems), NV::FuncDef { args_name, scope }) => {
            if elems.len() == 0 {
                Some((NV::Unit, st, fuel))
            } else if fuel == 0 {
                Some((NV::Unit, st, 0))
            } else {
                eval_fold_s(
                    elems.subrange(1, elems.len() as int),
                    elems[0],
                    args_name,
                    *scope,
                    st,
                    (fuel - 1) as nat,
                )
            }
        },
        _ => Some((apply_bin_s(op, lv, rv), st, fuel)),
    }
}

/// A binary operator applied to two evaluated operands, by the pure table.
fn apply_bin(op: Op, l: N, r: N) -> (res: N)
    ensures
        res@ == apply_bin_s(op, l@, r@),
{
    let ghost lv = l@;
    let ghost rv = r@;
    match (op, l, r) {
        (Op::Plus, N::Num(a), N::Num(b)) => N::Num(exec_add(a, b)),
        (Op::Greater, N::Num(a), N::Num(b)) => bool_n(exec_num_lt(b, a)),
        (Op::Lesser, N::Num(a), N::Num(b)) => bool_n(exec_num_lt(a, b)),
        (Op::Equals, N::Num(a), N::Num(b)) => bool_n(exec_num_eq(a, b)),
        (Op::Equals, N::Str(a), N::Str(b)) => bool_n(a == b),
        (Op::NotEquals, N::Num(a), N::Num(b)) => bool_n(!exec_num_eq(a, b)),
        (Op::NotEquals, N::Str(a), N::Str(b)) => bool_n(!(a == b)),
        (Op::Minus, N::Num(a), N::Num(b)) => N::Num(exec_sub(a, b)),
        (Op::Mul, N::Num(a), N::Num(b)) => N::Num(exec_mul(a, b)),
        (Op::Div, N::Num(a), N::Num(b)) => N::Num(exec_div(a, b)),
        (Op::Modulus, N::Num(a), N::Num(b)) => N::Num(exec_rem(a, b)),
        (Op::Plus, N::Str(a), r2) => {
            let t = r2.to_str();
            N::Str(a.concat(t.as_str()))
        },
        (Op::Plus, l2, N::Str(b)) => {
            let t = l2.to_str();
            N::Str(t.concat(b.as_str()))
        },
        (Op::Plus2, N::Array(mut a), N::Array(mut b)) => {
            let ghost av = seq_view(a@);
            let ghost bv = seq_view(b@);
            let ghost aseq = a@;
            let ghost bseq = b@;
            a.append(&mut b);
            proof {
                lemma_seq_view(aseq);
                lemma_seq_view(bseq);
                lemma_seq_view(a@);
                assert(seq_view(a@) =~= av + bv);
            }
            N::Array(a)
        },
        (Op::Plus, N::Array(mut a), r2) => {
            let ghost aseq = a@;
            let ghost r2v = r2@;
            a.push(r2);
            proof {
                lemma_seq_view_push(aseq, a@[a@.len() - 1]);
                assert(a@.subrange(0, a@.len() - 1) =~= aseq);
                lemma_seq_view(aseq);
                lemma_seq_view(a@);
                assert(seq_view(a@) =~= seq_view(aseq).push(r2v));
            }
            N::Array(a)
        },
        (Op::Plus, l2, N::Array(mut b)) => {
            let ghost bseq = b@;
            let ghost l2v = l2@;
            b.insert(0, l2);
            proof {
                lemma_seq_view(bseq);
                lemma_seq_view(b@);
                assert(seq_view(b@) =~= seq![l2v] + seq_view(bseq));
            }
            N::Array(b)
        },
        (Op::And, l2, r2) => {
            let lb = l2.to_bool();
            let rb = r2.to_bool();
            bool_n(lb && rb)
        },
        (Op::Or, l2, r2) => {
            let lb = l2.to_bool();
            let rb = r2.to_bool();
            bool_n(lb || rb)
        },
        _ => N::Unit,
    }
}

/// Evaluates one node against the context, within a step budget; the result
/// and the context afterwards are exactly what the model says, on any run
/// that does not invoke a host callback.
#[verifier::rlimit(100)]
pub fn eval_fueled(n: &N, ctx: &mut Ctx, fuel: u64) -> (r: (N, u64))
    requires
        old(ctx).wf(),
    ensures
        final(ctx).wf(),
        final(ctx).code == old(ctx).code,
        r.1 <= fuel,
        old(ctx).binds().len() <= final(ctx).binds().len(),
        match eval_s(n@, old(ctx).binds(), fuel as nat) {
            Some(t) => r.0@ == t.0 && final(ctx).binds() == t.1 && r.1 as nat == t.2,
            None => true,
        },
    decreases fuel, nv_size(n@), 0int,
{
    match n {
        N::If { condition, path_true, path_false } => {
            let (cv, f1) = eval_fueled(condition, ctx, fuel);
            let out = if cv.to_bool() {
                eval_fueled(path_true, ctx, f1)
            } else {
                eval_fueled(path_false, ctx, f1)
            };
            proof {
                assert(agrees(
                    eval_s(n@, old(ctx).binds(), fuel as nat),
                    out.0@,
                    ctx.binds(),
                    out.1 as nat,
                ));
            }
            out
        },
        N::While { condition, body } => {
            let ghost st0 = ctx.binds();
            let mut res = N::Unit;
            let mut f = fuel;
            loop
                invariant_except_break
                    eval_while_s((**condition)@, (**body)@, st0, fuel as nat, NV::Unit) is None
                        || eval_while_s((**condition)@, (**body)@, st0, fuel as nat, NV::Unit)
                        == eval_while_s((**condition)@, (**body)@, ctx.binds(), f as nat, res@),
                invariant
                    ctx.wf(),
                    f <= fuel,
                    ctx.code == old(ctx).code,
                    st0.len() <= ctx.binds().len(),
                    nv_size((**condition)@) < nv_size(n@),
                    nv_size((**body)@) < nv_size(n@),
                ensures
                    ctx.wf(),
                    f <= fuel,
                    ctx.code == old(ctx).code,
                    st0.len() <= ctx.binds().len(),
                    eval_while_s((**condition)@, (**body)@, st0, fuel as nat, NV::Unit) is None
                        || eval_while_s((**condition)@, (**body)@, st0, fuel as nat, NV::Unit)
                        == Some((res@, ctx.binds(), f as nat)),
                decreases f,
            {
                let (cv, f1) = eval_fueled(condition, ctx, f);
                f = f1;
                if !cv.to_bool() {
                    break;
                }
                if f == 0 {
                    res = N::Unit;
                    break;
                }
                f = f - 1;
                let (bv, f2) = eval_fueled(body, ctx, f);
                res = bv;
                f = f2;
            }
            proof {
                assert(agrees(eval_s(n@, old(ctx).binds(), fuel as nat), res@, ctx.binds(), f as nat));
            }
            (res, f)
        },
        N::Block(stmts) => {
            let ghost st0 = ctx.binds();
            let mark = ctx.values.len();
            let mut res = N::Unit;
            let mut f = fuel;
            let mut k: usize = 0;
            proof {
                lemma_seq_view(stmts@);
                assert(seq_view(stmts@).subrange(0, seq_view(stmts@).len() as int) =~= seq_view(
                    stmts@,
                ));
            }
            while k < stmts.len()
                invariant
                    ctx.wf(),
                    f <= fuel,
                    k <= stmts@.len(),
                    ctx.code == old(ctx).code,
                    st0.len() <= ctx.binds().len(),
                    mark == st0.len(),
                    nvs_size(seq_view(stmts@)) < nv_size(n@),
                    seq_view(stmts@).len() == stmts@.len(),
                    eval_block_s(seq_view(stmts@), st0, fuel as nat, NV::Unit) is None
                        || eval_block_s(seq_view(stmts@), st0, fuel as nat, NV::Unit)
                        == eval_block_s(
                        seq_view(stmts@).subrange(k as int, seq_view(stmts@).len() as int),
                        ctx.binds(),
                        f as nat,
                        res@,
                    ),
                decreases stmts@.len() - k,
            {
                let ghost tail = seq_view(stmts@).subrange(k as int, seq_view(stmts@).len() as int);
                proof {
                    lemma_seq_view(stmts@);
                    lemma_nvs_size_index(seq_view(stmts@), k as int);
                }
                let (v, f2) = eval_fueled(&stmts[k], ctx, f);
                res = v;
                f = f2;
                k = k + 1;
                proof {
                    lemma_seq_view(stmts@);
                    assert(tail[0] == stmts@[k - 1]@);
                    assert(tail.subrange(1, tail.len() as int) =~= seq_view(stmts@).subrange(
                        k as int,
                        seq_view(stmts@).len() as int,
                    ));
                }
            }
            proof {
                assert(seq_view(stmts@).subrange(
                    stmts@.len() as int,
                    seq_view(stmts@).len() as int,
                ) =~= Seq::<NV>::empty());
            }
            ctx.drain(mark);
            proof {
                assert(agrees(eval_s(n@, old(ctx).binds(), fuel as nat), res@, ctx.binds(), f as nat));
            }
            (res, f)
        },
        N::Let(name, val) => {
            let (v, f1) = eval_fueled(val, ctx, fuel);
            ctx.set_val(name.as_str(), v);
            proof {
                assert(agrees(
                    eval_s(n@, old(ctx).binds(), fuel as nat),
                    NV::Unit,
                    ctx.binds(),
                    f1 as nat,
                ));
            }
            (N::Unit, f1)
        },
        N::Get(name) => {
            match ctx.find_var(name.as_str()) {
                Some(i) => {
                    proof {
                        crate::ctx::lemma_lookup_name(ctx.binds(), name@);
                    }
                    let out = crate::ast::clone_node(&ctx.values[i]);
                    proof {
                        assert(agrees(
                            eval_s(n@, old(ctx).binds(), fuel as nat),
                            out@,
                            ctx.binds(),
                            fuel as nat,
                        ));
                    }
                    (out, fuel)
                },
                None => {
                    proof {
                        assert(agrees(
                            eval_s(n@, old(ctx).binds(), fuel as nat),
                            NV::Unit,
                            ctx.binds(),
                            fuel as nat,
                        ));
                    }
                    (N::Unit, fuel)
                },
            }
        },
        N::FuncCall { func, args } => {
            let (fv, f1) = eval_fueled(func, ctx, fuel);
            let ghost fvv = fv@;
            let ghost st1g0 = ctx.binds();
            proof {
                lemma_seq_view(args@);
                match eval_s((**func)@, old(ctx).binds(), fuel as nat) {
                    None => {
                        assert(eval_s(n@, old(ctx).binds(), fuel as nat) is None);
                    },
                    Some(t) => {
                        assert(t.0 == fvv && t.1 == st1g0 && t.2 == f1 as nat);
                        assert(eval_s(n@, old(ctx).binds(), fuel as nat) == eval_call_s(
                            fvv,
                            seq_view(args@),
                            st1g0,
                            f1 as nat,
                        ));
                    },
                }
            }
            proof {
                crate::values::lemma_nv_size_pos((**func)@);
            }
            let out = eval_call_x(fv, args, ctx, f1);
            proof {
                assert(agrees(
                    eval_s(n@, old(ctx).binds(), fuel as nat),
                    out.0@,
                    ctx.binds(),
                    out.1 as nat,
                ));
            }
            out
        },
        N::Binary(op, l, r) => {
            match op {
                Op::Assign => {
                    match &**l {
                        N::Get(name) => {
                            match ctx.find_var(name.as_str()) {
                                Some(k) => {
                                    proof {
                                        crate::ctx::lemma_lookup_name(ctx.binds(), name@);
                                    }
                                    let (rv, f1) = eval_fueled(r, ctx, fuel);
                                    ctx.set_val_absolute(k, name.as_str(), rv);
                                    proof {
                                        assert(agrees(
                                            eval_s(n@, old(ctx).binds(), fuel as nat),
                                            NV::Unit,
                                            ctx.binds(),
                                            f1 as nat,
                                        ));
                                    }
                                    (N::Unit, f1)
                                },
                                None => {
                                    proof {
                                        assert(agrees(
                                            eval_s(n@, old(ctx).binds(), fuel as nat),
                                            NV::Unit,
                                            ctx.binds(),
                                            fuel as nat,
                                        ));
                                    }
                                    (N::Unit, fuel)
                                },
                            }
                        },
                        _ => {
                            proof {
                                assert(agrees(
                                    eval_s(n@, old(ctx).binds(), fuel as nat),
                                    NV::Unit,
                                    ctx.binds(),
                                    fuel as nat,
                                ));
                            }
                            (N::Unit, fuel)
                        },
                    }
                },
                _ => {
                    let (lv, f1) = eval_fueled(l, ctx, fuel);
                    let (rv, f2) = eval_fueled(r, ctx, f1);
                    let ghost lvv = lv@;
                    let ghost rvv = rv@;
                    proof {
                        match eval_s((**l)@, old(ctx).binds(), fuel as nat) {
                            None => {
                                assert(eval_s(n@, old(ctx).binds(), fuel as nat) is None);
                            },
                            Some(t1) => {
                                match eval_s((**r)@, t1.1, t1.2) {
                                    None => {
                                        assert(eval_s(n@, old(ctx).binds(), fuel as nat)
                                            is None);
                                    },
                                    Some(t2) => {
                                        assert(eval_s(n@, old(ctx).binds(), fuel as nat)
                                            == eval_bin_vals_s(
                                            *op,
                                            lvv,
                                            rvv,
                                            ctx.binds(),
                                            f2 as nat,
                                        ));
                                    },
                                }
                            },
                        }
                    }
                    match (op, lv, rv) {
                        (Op::And, N::Array(elems), N::FuncDef { args_name, scope }) => {
                            proof {
                                assert(lvv == NV::Array(seq_view(elems@)));
                                assert(rvv == NV::FuncDef {
                                    args_name: ident_views(args_name@),
                                    scope: Box::new((*scope)@),
                                });
                            }
                            if f2 == 0 {
                                proof {
                                    assert(agrees(
                                        eval_s(n@, old(ctx).binds(), fuel as nat),
                                        NV::Unit,
                                        ctx.binds(),
                                        0nat,
                                    ));
                                }
                                (N::Unit, 0)
                            } else {
                                let out = exec_filter(&elems, &args_name, &scope, ctx, f2 - 1);
                                proof {
                                    assert(agrees(
                                        eval_s(n@, old(ctx).binds(), fuel as nat),
                                        out.0@,
                                        ctx.binds(),
                                        out.1 as nat,
                                    ));
                                }
                                out
                            }
                        },
                        (Op::Or, N::Array(elems), N::FuncDef { args_name, scope }) => {
                            proof {
                                lemma_seq_view(elems@);
                                assert(lvv == NV::Array(seq_view(elems@)));
                                assert(rvv == NV::FuncDef {
                                    args_name: ident_views(args_name@),
                                    scope: Box::new((*scope)@),
                                });
                            }
                            if elems.len() == 0 {
                                proof {
                                    assert(agrees(
                                        eval_s(n@, old(ctx).binds(), fuel as nat),
                                        NV::Unit,
                                        ctx.binds(),
                                        f2 as nat,
                                    ));
                                }
                                (N::Unit, f2)
                            } else if f2 == 0 {
                                proof {
                                    assert(agrees(
                                        eval_s(n@, old(ctx).binds(), fuel as nat),
                                        NV::Unit,
                                        ctx.binds(),
                                        0nat,
                                    ));
                                }
                                (N::Unit, 0)
                            } else {
                                let out = exec_fold(&elems, &args_name, &scope, ctx, f2 - 1);
                                proof {
                                    assert(agrees(
                                        eval_s(n@, old(ctx).binds(), fuel as nat),
                                        out.0@,
                                        ctx.binds(),
                                        out.1 as nat,
                                    ));
                                }
                                out
                            }
                        },
                        (op2, lv2, rv2) => {
                            let ghost l2v = lv2@;
                            let ghost r2v = rv2@;
                            proof {
                                crate::values::lemma_shape(lv2);
                                crate::values::lemma_shape(rv2);
                            }
                            let out = apply_bin(*op2, lv2, rv2);
                            proof {
                                assert(eval_bin_vals_s(*op2, l2v, r2v, ctx.binds(), f2 as nat)
                                    == Some((apply_bin_s(*op2, l2v, r2v), ctx.binds(), f2 as nat)));
                                assert(agrees(
                                    eval_s(n@, old(ctx).binds(), fuel as nat),
                                    out@,
                                    ctx.binds(),
                                    f2 as nat,
                                ));
                            }
                            (out, f2)
                        },
                    }
                },
            }
        },
        N::FuncDef { args_name, scope } => {
            let mut ex = crate::ast::clone_idents(args_name);
            let d = dup(&mut ex, scope, ctx);
            let ghost dv = d@;
            let bd = Box::new(d);
            let names2 = crate::ast::clone_idents(args_name);
            let out = N::FuncDef { args_name: names2, scope: bd };
            proof {
                assert(out@ =~= NV::FuncDef {
                    args_name: ident_views(args_name@),
                    scope: Box::new(dv),
                });
                assert(agrees(eval_s(n@, old(ctx).binds(), fuel as nat), out@, ctx.binds(), fuel as nat));
            }
            (out, fuel)
        },
        N::Array(elems) => {
            let (vals, f1) = eval_list(elems, ctx, fuel);
            let out = N::Array(vals);
            proof {
                assert(agrees(eval_s(n@, old(ctx).binds(), fuel as nat), out@, ctx.binds(), f1 as nat));
            }
            (out, f1)
        },
        _ => {
            let out = crate::ast::clone_node(n);
            proof {
                assert(agrees(eval_s(n@, old(ctx).binds(), fuel as nat), out@, ctx.binds(), fuel as nat));
            }
            (out, fuel)
        },
    }
}

/// Dispatches a call on the shape of the callee value; the result is
/// exactly what the call model says.
#[verifier::rlimit(100)]
fn eval_call_x(fv: N, args: &Vec<N>, ctx: &mut Ctx, f1: u64) -> (r: (N, u64))
    requires
        old(ctx).wf(),
    ensures
        final(ctx).wf(),
        final(ctx).code == old(ctx).code,
        r.1 <= f1,
        old(ctx).binds().len() <= final(ctx).binds().len(),
        match eval_call_s(fv@, seq_view(args@), old(ctx).binds(), f1 as nat) {
            Some(t) => r.0@ == t.0 && final(ctx).binds() == t.1 && r.1 as nat == t.2,
            None => true,
        },
    decreases f1, nvs_size(seq_view(args@)) + 1, 2int,
{
    let ghost fvv = fv@;
    let ghost st1g0 = ctx.binds();
    proof {
        lemma_seq_view(args@);
    }
    match fv {
        N::FuncNativeDef(native) => {
            let (vals, f2) = eval_list(args, ctx, f1);
            proof {
                assert(eval_call_s(fvv, seq_view(args@), old(ctx).binds(), f1 as nat) is None);
            }
            let a = arg_or_unit(&vals, 0);
            let b = arg_or_unit(&vals, 1);
            let c = arg_or_unit(&vals, 2);
            let d = arg_or_unit(&vals, 3);
            (native.call(a, b, c, d), f2)
        },
        N::FuncDef { args_name, scope } => {
            if f1 == 0 {
                proof {
                    assert(agrees(
                        eval_call_s(fvv, seq_view(args@), old(ctx).binds(), f1 as nat),
                        NV::Unit,
                        ctx.binds(),
                        0nat,
                    ));
                }
                (N::Unit, 0)
            } else {
                let ghost st1g = ctx.binds();
                proof {
                    assert(fvv is FuncDef);
                    assert(fvv == NV::FuncDef {
                        args_name: ident_views(args_name@),
                        scope: Box::new((*scope)@),
                    });
                    assert(st1g == st1g0);
                }
                let mark = ctx.values.len();
                let f2 = bind_params_x(&args_name, args, ctx, f1 - 1);
                let ghost st2g = ctx.binds();
                proof {
                    match bind_params_s(
                        ident_views(args_name@),
                        seq_view(args@),
                        st1g,
                        (f1 - 1) as nat,
                    ) {
                        None => {
                            assert(eval_call_s(fvv, seq_view(args@), old(ctx).binds(), f1 as nat) is None);
                        },
                        Some(tb) => {
                            assert(st2g == tb.0 && f2 as nat == tb.1);
                        },
                    }
                }
                let f3 = eval_extra_x(args, args_name.len(), ctx, f2);
                let ghost st3g = ctx.binds();
                let (rv, f4) = eval_fueled(&scope, ctx, f3);
                ctx.drain(mark);
                proof {
                    assert(agrees(
                        eval_call_s(fvv, seq_view(args@), old(ctx).binds(), f1 as nat),
                        rv@,
                        ctx.binds(),
                        f4 as nat,
                    ));
                }
                (rv, f4)
            }
        },
        N::Array(elems) => {
            proof {
                lemma_seq_view(elems@);
            }
            if args.len() == 0 {
                let out = N::Num(exec_num_of_count(elems.len() as u64));
                proof {
                    assert(agrees(
                        eval_call_s(fvv, seq_view(args@), old(ctx).binds(), f1 as nat),
                        out@,
                        ctx.binds(),
                        f1 as nat,
                    ));
                }
                (out, f1)
            } else {
                proof {
                    lemma_nvs_size_index(seq_view(args@), 0);
                }
                let (iv, f2) = eval_fueled(&args[0], ctx, f1);
                let ghost ivv = iv@;
                match iv {
                    N::Num(bits) => {
                        let out = array_get(&elems, bits);
                        proof {
                            assert(agrees(
                                eval_call_s(fvv, seq_view(args@), old(ctx).binds(), f1 as nat),
                                out@,
                                ctx.binds(),
                                f2 as nat,
                            ));
                        }
                        (out, f2)
                    },
                    N::FuncDef { args_name, scope } => {
                        proof {
                            assert(ivv == NV::FuncDef {
                                args_name: ident_views(args_name@),
                                scope: Box::new((*scope)@),
                            });
                        }
                        if f2 == 0 {
                            proof {
                                assert(agrees(
                                    eval_call_s(fvv, seq_view(args@), old(ctx).binds(), f1 as nat),
                                    NV::Unit,
                                    ctx.binds(),
                                    0nat,
                                ));
                            }
                            (N::Unit, 0)
                        } else {
                            let out = exec_map(&elems, &args_name, &scope, ctx, f2 - 1);
                            proof {
                                assert(agrees(
                                    eval_call_s(fvv, seq_view(args@), old(ctx).binds(), f1 as nat),
                                    out.0@,
                                    ctx.binds(),
                                    out.1 as nat,
                                ));
                            }
                            out
                        }
                    },
                    _ => {
                        proof {
                            assert(agrees(
                                eval_call_s(fvv, seq_view(args@), old(ctx).binds(), f1 as nat),
                                NV::Unit,
                                ctx.binds(),
                                f2 as nat,
                            ));
                        }
                        (N::Unit, f2)
                    },
                }
            }
        },
        _ => {
            proof {
                assert(agrees(
                    eval_call_s(fvv, seq_view(args@), old(ctx).binds(), f1 as nat),
                    NV::Unit,
                    ctx.binds(),
                    f1 as nat,
                ));
            }
            (N::Unit, f1)
        },
            }

}

/// The value at `i`, copied, or the unit value past the end: a missing call
/// argument binds to unit.
fn arg_or_unit(vals: &Vec<N>, i: usize) -> (r: N)
    ensures
        i < vals@.len() ==> r@ == vals@[i as int]@,
        i >= vals@.len() ==> r@ == NV::Unit,
{
    if i < vals.len() {
        crate::ast::clone_node(&vals[i])
    } else {
        N::Unit
    }
}

/// Reads an array at a numeric index: truncation toward zero, one wrap from
/// the end for a negative index, the unit value out of range.
fn array_get(elems: &Vec<N>, bits: u64) -> (r: N)
    ensures
        ({
            let idx = array_index_of(bits, seq_view(elems@).len());
            &&& 0 <= idx < seq_view(elems@).len() ==> r@ == seq_view(elems@)[idx]
            &&& !(0 <= idx < seq_view(elems@).len()) ==> r@ == NV::Unit
        }),
{
    proof {
        lemma_seq_view(elems@);
    }
    let t: i64 = exec_num_trunc(bits);
    let idx: i128 = if t < 0 {
        elems.len() as i128 + t as i128
    } else {
        t as i128
    };
    if 0 <= idx && idx < elems.len() as i128 {
        crate::ast::clone_node(&elems[idx as usize])
    } else {
        N::Unit
    }
}

/// Evaluates each node of a list in order, collecting the values.
fn eval_list(nodes: &Vec<N>, ctx: &mut Ctx, fuel: u64) -> (r: (Vec<N>, u64))
    requires
        old(ctx).wf(),
    ensures
        final(ctx).wf(),
        final(ctx).code == old(ctx).code,
        r.1 <= fuel,
        old(ctx).binds().len() <= final(ctx).binds().len(),
        match eval_elems_s(seq_view(nodes@), old(ctx).binds(), fuel as nat) {
            Some(t) => seq_view(r.0@) == t.0 && final(ctx).binds() == t.1 && r.1 as nat == t.2,
            None => true,
        },
    decreases fuel, nvs_size(seq_view(nodes@)), 1int,
{
    let ghost st0 = ctx.binds();
    let ghost full = seq_view(nodes@);
    let mut out: Vec<N> = Vec::new();
    let mut f = fuel;
    let mut k: usize = 0;
    proof {
        lemma_seq_view(nodes@);
        assert(full.subrange(0, full.len() as int) =~= full);
        assert(seq_view(out@) =~= Seq::<NV>::empty());
    }
    while k < nodes.len()
        invariant
            ctx.wf(),
            f <= fuel,
            k <= nodes@.len(),
            full == seq_view(nodes@),
            out@.len() == k,
            ctx.code == old(ctx).code,
            st0.len() <= ctx.binds().len(),
            eval_elems_s(full, st0, fuel as nat) is None || ({
                let sub = eval_elems_s(
                    full.subrange(k as int, full.len() as int),
                    ctx.binds(),
                    f as nat,
                );
                sub is Some && eval_elems_s(full, st0, fuel as nat) == Some(
                    (seq_view(out@) + sub->Some_0.0, sub->Some_0.1, sub->Some_0.2),
                )
            }),
        decreases nodes@.len() - k,
    {
        let ghost pre_out = seq_view(out@);
        let ghost tail = full.subrange(k as int, full.len() as int);
        let ghost st_pre = ctx.binds();
        let ghost f_pre = f as nat;
        proof {
            lemma_seq_view(nodes@);
            lemma_nvs_size_index(full, k as int);
        }
        let (v, f2) = eval_fueled(&nodes[k], ctx, f);
        let ghost vv = v@;
        let ghost outpre = out@;
        out.push(v);
        f = f2;
        k = k + 1;
        proof {
            lemma_seq_view(nodes@);
            lemma_seq_view(outpre);
            lemma_seq_view(out@);
            assert(tail[0] == nodes@[k - 1]@);
            assert(tail.subrange(1, tail.len() as int) =~= full.subrange(
                k as int,
                full.len() as int,
            ));
            assert(seq_view(out@) =~= pre_out.push(vv));
            if eval_elems_s(full, st0, fuel as nat) is Some {
                match eval_s(tail[0], st_pre, f_pre) {
                    None => {
                        assert(eval_elems_s(tail, st_pre, f_pre) is None);
                        assert(false);
                    },
                    Some(h) => {
                        match eval_elems_s(
                            full.subrange(k as int, full.len() as int),
                            ctx.binds(),
                            f as nat,
                        ) {
                            None => {
                                assert(eval_elems_s(tail, st_pre, f_pre) is None);
                                assert(false);
                            },
                            Some(sub) => {
                                assert(eval_elems_s(tail, st_pre, f_pre) == Some(
                                    (seq![vv] + sub.0, sub.1, sub.2),
                                ));
                                assert(pre_out + (seq![vv] + sub.0) =~= seq_view(out@) + sub.0);
                            },
                        }
                    },
                }
            }
        }
    }
    proof {
        assert(full.subrange(k as int, full.len() as int) =~= Seq::<NV>::empty());
        if eval_elems_s(full, st0, fuel as nat) is Some {
            assert(seq_view(out@) + Seq::<NV>::empty() =~= seq_view(out@));
        }
    }
    (out, f)
}

/// Binds one value per declared parameter name, evaluating the matching
/// arguments in order; parameters past the supplied arguments bind to unit.
fn bind_params_x(params: &Vec<String>, args: &Vec<N>, ctx: &mut Ctx, fuel: u64) -> (rf: u64)
    requires
        old(ctx).wf(),
    ensures
        final(ctx).wf(),
        final(ctx).code == old(ctx).code,
        rf <= fuel,
        old(ctx).binds().len() <= final(ctx).binds().len(),
        match bind_params_s(
            ident_views(params@),
            seq_view(args@),
            old(ctx).binds(),
            fuel as nat,
        ) {
            Some(t) => final(ctx).binds() == t.0 && rf as nat == t.1,
            None => true,
        },
    decreases fuel, nvs_size(seq_view(args@)) + params@.len(), 1int,
{
    let ghost st0 = ctx.binds();
    let ghost pfull = ident_views(params@);
    let ghost afull = seq_view(args@);
    let mut f = fuel;
    let mut k: usize = 0;
    proof {
        lemma_seq_view(args@);
        assert(pfull.subrange(0, pfull.len() as int) =~= pfull);
        assert(afull.subrange(0, afull.len() as int) =~= afull);
    }
    while k < params.len()
        invariant
            ctx.wf(),
            f <= fuel,
            k <= params@.len(),
            pfull == ident_views(params@),
            afull == seq_view(args@),
            ctx.code == old(ctx).code,
            st0.len() <= ctx.binds().len(),
            bind_params_s(pfull, afull, st0, fuel as nat) is None || bind_params_s(
                pfull,
                afull,
                st0,
                fuel as nat,
            ) == bind_params_s(
                pfull.subrange(k as int, pfull.len() as int),
                if k < afull.len() {
                    afull.subrange(k as int, afull.len() as int)
                } else {
                    Seq::empty()
                },
                ctx.binds(),
                f as nat,
            ),
        decreases params@.len() - k,
    {
        let ghost ptail = pfull.subrange(k as int, pfull.len() as int);
        let ghost atail = if k < afull.len() {
            afull.subrange(k as int, afull.len() as int)
        } else {
            Seq::<NV>::empty()
        };
        if k < args.len() {
            proof {
                lemma_seq_view(args@);
                lemma_nvs_size_index(afull, k as int);
            }
            let (v, f2) = eval_fueled(&args[k], ctx, f);
            ctx.set_val(params[k].as_str(), v);
            f = f2;
        } else {
            ctx.set_val(params[k].as_str(), N::Unit);
        }
        k = k + 1;
        proof {
            lemma_seq_view(args@);
            assert(ptail[0] == params@[k - 1]@);
            assert(ptail.subrange(1, ptail.len() as int) =~= pfull.subrange(
                k as int,
                pfull.len() as int,
            ));
            if k - 1 < afull.len() {
                assert(atail[0] == args@[k - 1]@);
                if k < afull.len() {
                    assert(atail.subrange(1, atail.len() as int) =~= afull.subrange(
                        k as int,
                        afull.len() as int,
                    ));
                } else {
                    assert(atail.subrange(1, atail.len() as int) =~= Seq::<NV>::empty());
                }
            }
        }
    }
    proof {
        assert(pfull.subrange(k as int, pfull.len() as int) =~= Seq::<Seq<char>>::empty());
    }
    f
}

/// Evaluates the arguments past the declared parameters, in order, for
/// their effects.
fn eval_extra_x(args: &Vec<N>, from: usize, ctx: &mut Ctx, fuel: u64) -> (rf: u64)
    requires
        old(ctx).wf(),
    ensures
        final(ctx).wf(),
        final(ctx).code == old(ctx).code,
        rf <= fuel,
        old(ctx).binds().len() <= final(ctx).binds().len(),
        match eval_extra_s(
            if (from as int) < seq_view(args@).len() {
                seq_view(args@).subrange(from as int, seq_view(args@).len() as int)
            } else {
                Seq::empty()
            },
            old(ctx).binds(),
            fuel as nat,
        ) {
            Some(t) => final(ctx).binds() == t.0 && rf as nat == t.1,
            None => true,
        },
    decreases fuel, nvs_size(seq_view(args@)), 1int,
{
    let ghost st0 = ctx.binds();
    let ghost full = seq_view(args@);
    let mut f = fuel;
    let mut k: usize = if from > args.len() {
        args.len()
    } else {
        from
    };
    let ghost start = k as int;
    proof {
        lemma_seq_view(args@);
        if (from as int) < full.len() {
            assert(full.subrange(from as int, full.len() as int) =~= full.subrange(
                start,
                full.len() as int,
            ));
        } else {
            assert(full.subrange(start, full.len() as int) =~= Seq::<NV>::empty());
        }
    }
    let ghost extras = full.subrange(start, full.len() as int);
    while k < args.len()
        invariant
            ctx.wf(),
            f <= fuel,
            start <= k <= args@.len(),
            full == seq_view(args@),
            ctx.code == old(ctx).code,
            st0.len() <= ctx.binds().len(),
            eval_extra_s(extras, st0, fuel as nat) is None || eval_extra_s(
                extras,
                st0,
                fuel as nat,
            ) == eval_extra_s(
                full.subrange(k as int, full.len() as int),
                ctx.binds(),
                f as nat,
            ),
        decreases args@.len() - k,
    {
        let ghost tail = full.subrange(k as int, full.len() as int);
        proof {
            lemma_seq_view(args@);
            lemma_nvs_size_index(full, k as int);
        }
        let (v, f2) = eval_fueled(&args[k], ctx, f);
        f = f2;
        k = k + 1;
        proof {
            lemma_seq_view(args@);
            assert(tail[0] == args@[k - 1]@);
            assert(tail.subrange(1, tail.len() as int) =~= full.subrange(
                k as int,
                full.len() as int,
            ));
        }
    }
    proof {
        assert(full.subrange(k as int, full.len() as int) =~= Seq::<NV>::empty());
    }
    f
}

/// Pushes the element-wise bindings for one application: the first value
/// under the first parameter name, the second under the second.
fn push_elem_binds(params: &Vec<String>, first: &N, second: &N, ctx: &mut Ctx)
    requires
        old(ctx).wf(),
    ensures
        final(ctx).wf(),
        final(ctx).code == old(ctx).code,
        final(ctx).binds() == elem_binds(
            old(ctx).binds(),
            ident_views(params@),
            first@,
            second@,
        ),
        old(ctx).binds().len() <= final(ctx).binds().len(),
    {
    if params.len() >= 1 {
        ctx.set_val(params[0].as_str(), crate::ast::clone_node(first));
        if params.len() >= 2 {
            ctx.set_val(params[1].as_str(), crate::ast::clone_node(second));
        }
    }
}

/// Maps a function over the elements of an array, one application per
/// element, collecting the results.
fn exec_map(elems: &Vec<N>, params: &Vec<String>, scope: &N, ctx: &mut Ctx, fuel: u64) -> (r: (
    N,
    u64,
))
    requires
        old(ctx).wf(),
    ensures
        final(ctx).wf(),
        final(ctx).code == old(ctx).code,
        r.1 <= fuel,
        old(ctx).binds().len() <= final(ctx).binds().len(),
        match eval_map_s(
            seq_view(elems@),
            0,
            Seq::empty(),
            ident_views(params@),
            scope@,
            old(ctx).binds(),
            fuel as nat,
        ) {
            Some(t) => r.0@ == t.0 && final(ctx).binds() == t.1 && r.1 as nat == t.2,
            None => true,
        },
    decreases fuel, 0int, 1int,
{
    let ghost st0 = ctx.binds();
    let ghost full = seq_view(elems@);
    let ghost pviews = ident_views(params@);
    let mut acc: Vec<N> = Vec::new();
    let mut f = fuel;
    let mut k: usize = 0;
    proof {
        lemma_seq_view(elems@);
        assert(full.subrange(0, full.len() as int) =~= full);
        assert(seq_view(acc@) =~= Seq::<NV>::empty());
    }
    loop
        invariant_except_break
            eval_map_s(full, 0, Seq::empty(), pviews, scope@, st0, fuel as nat) is None
                || eval_map_s(full, 0, Seq::empty(), pviews, scope@, st0, fuel as nat)
                == eval_map_s(
                full.subrange(k as int, full.len() as int),
                k as nat,
                seq_view(acc@),
                pviews,
                scope@,
                ctx.binds(),
                f as nat,
            ),
        invariant
            ctx.wf(),
            f <= fuel,
            k <= elems@.len(),
            full == seq_view(elems@),
            full.len() == elems@.len(),
            pviews == ident_views(params@),
            acc@.len() == k,
            ctx.code == old(ctx).code,
            st0.len() == ctx.binds().len(),
        ensures
            ctx.wf(),
            f <= fuel,
            k <= elems@.len(),
            ctx.code == old(ctx).code,
            st0.len() <= ctx.binds().len(),
            eval_map_s(full, 0, Seq::empty(), pviews, scope@, st0, fuel as nat) is None || (k
                >= elems@.len() && eval_map_s(full, 0, Seq::empty(), pviews, scope@, st0, fuel as nat)
                == Some((NV::Array(seq_view(acc@)), ctx.binds(), f as nat))) || (k < elems@.len()
                && f == 0 && eval_map_s(full, 0, Seq::empty(), pviews, scope@, st0, fuel as nat)
                == Some((NV::Unit, ctx.binds(), 0nat))),
        decreases elems@.len() - k,
    {
        if k >= elems.len() {
            proof {
                assert(full.subrange(k as int, full.len() as int) =~= Seq::<NV>::empty());
            }
            break;
        }
        if f == 0 {
            break;
        }
        let ghost st_pre = ctx.binds();
        let ghost f_pre = f as nat;
        let ghost acc_pre = seq_view(acc@);
        let ghost tail = full.subrange(k as int, full.len() as int);
        f = f - 1;
        let mark = ctx.values.len();
        let elem = crate::ast::clone_node(&elems[k]);
        let idxn = N::Num(exec_num_of_count(k as u64));
        push_elem_binds(params, &elem, &idxn, ctx);
        let ghost st1 = ctx.binds();
        proof {
            assert(st1 == elem_binds(st_pre, pviews, elem@, idxn@));
        }
        let (rv, f2) = eval_fueled(scope, ctx, f);
        ctx.drain(mark);
        let ghost accpre = acc@;
        let ghost rvv = rv@;
        acc.push(rv);
        f = f2;
        k = k + 1;
        proof {
            lemma_seq_view(elems@);
            lemma_seq_view(accpre);
            lemma_seq_view(acc@);
            assert(tail[0] == elems@[k - 1]@);
            assert(tail.subrange(1, tail.len() as int) =~= full.subrange(
                k as int,
                full.len() as int,
            ));
            assert(seq_view(acc@) =~= seq_view(accpre).push(rvv));
            assert(st1 == elem_binds(
                st_pre,
                pviews,
                tail[0],
                NV::Num(crate::numerics::num_of_count((k - 1) as u64)),
            ));
            match eval_s(scope@, st1, (f_pre - 1) as nat) {
                None => {
                    assert(eval_map_s(tail, (k - 1) as nat, acc_pre, pviews, scope@, st_pre, f_pre)
                        is None);
                },
                Some(t) => {},
            }
        }
    }
    if k >= elems.len() {
        (N::Array(acc), f)
    } else {
        (N::Unit, 0)
    }
}

/// Filters the elements of an array by a function, one application per
/// element, keeping the elements whose application is truthy.
fn exec_filter(elems: &Vec<N>, params: &Vec<String>, scope: &N, ctx: &mut Ctx, fuel: u64) -> (r: (
    N,
    u64,
))
    requires
        old(ctx).wf(),
    ensures
        final(ctx).wf(),
        final(ctx).code == old(ctx).code,
        r.1 <= fuel,
        old(ctx).binds().len() <= final(ctx).binds().len(),
        match eval_filter_s(
            seq_view(elems@),
            0,
            Seq::empty(),
            ident_views(params@),
            scope@,
            old(ctx).binds(),
            fuel as nat,
        ) {
            Some(t) => r.0@ == t.0 && final(ctx).binds() == t.1 && r.1 as nat == t.2,
            None => true,
        },
    decreases fuel, 0int, 1int,
{
    let ghost st0 = ctx.binds();
    let ghost full = seq_view(elems@);
    let ghost pviews = ident_views(params@);
    let mut acc: Vec<N> = Vec::new();
    let mut f = fuel;
    let mut k: usize = 0;
    proof {
        lemma_seq_view(elems@);
        assert(full.subrange(0, full.len() as int) =~= full);
        assert(seq_view(acc@) =~= Seq::<NV>::empty());
    }
    loop
        invariant_except_break
            eval_filter_s(full, 0, Seq::empty(), pviews, scope@, st0, fuel as nat) is None
                || eval_filter_s(full, 0, Seq::empty(), pviews, scope@, st0, fuel as nat)
                == eval_filter_s(
                full.subrange(k as int, full.len() as int),
                k as nat,
                seq_view(acc@),
                pviews,
                scope@,
                ctx.binds(),
                f as nat,
            ),
        invariant
            ctx.wf(),
            f <= fuel,
            k <= elems@.len(),
            full == seq_view(elems@),
            full.len() == elems@.len(),
            pviews == ident_views(params@),
            ctx.code == old(ctx).code,
            st0.len() == ctx.binds().len(),
        ensures
            ctx.wf(),
            f <= fuel,
            k <= elems@.len(),
            ctx.code == old(ctx).code,
            st0.len() <= ctx.binds().len(),
            eval_filter_s(full, 0, Seq::empty(), pviews, scope@, st0, fuel as nat) is None || (k
                >= elems@.len() && eval_filter_s(full, 0, Seq::empty(), pviews, scope@, st0, fuel as nat)
                == Some((NV::Array(seq_view(acc@)), ctx.binds(), f as nat))) || (k < elems@.len()
                && f == 0 && eval_filter_s(full, 0, Seq::empty(), pviews, scope@, st0, fuel as nat)
                == Some((NV::Unit, ctx.binds(), 0nat))),
        decreases elems@.len() - k,
    {
        if k >= elems.len() {
            proof {
                assert(full.subrange(k as int, full.len() as int) =~= Seq::<NV>::empty());
            }
            break;
        }
        if f == 0 {
            break;
        }
        let ghost st_pre = ctx.binds();
        let ghost f_pre = f as nat;
        let ghost acc_pre = seq_view(acc@);
        let ghost tail = full.subrange(k as int, full.len() as int);
        f = f - 1;
        let mark = ctx.values.len();
        let elem = crate::ast::clone_node(&elems[k]);
        let idxn = N::Num(exec_num_of_count(k as u64));
        push_elem_binds(params, &elem, &idxn, ctx);
        let ghost st1 = ctx.binds();
        proof {
            assert(st1 == elem_binds(st_pre, pviews, elem@, idxn@));
        }
        let (rv, f2) = eval_fueled(scope, ctx, f);
        ctx.drain(mark);
        let ghost accpre = acc@;
        let keep = rv.to_bool();
        if keep {
            acc.push(crate::ast::clone_node(&elems[k]));
        }
        f = f2;
        k = k + 1;
        proof {
            lemma_seq_view(elems@);
            lemma_seq_view(accpre);
            lemma_seq_view(acc@);
            assert(tail[0] == elems@[k - 1]@);
            assert(tail.subrange(1, tail.len() as int) =~= full.subrange(
                k as int,
                full.len() as int,
            ));
            if keep {
                assert(seq_view(acc@) =~= seq_view(accpre).push(elems@[k - 1]@));
            }
            assert(st1 == elem_binds(
                st_pre,
                pviews,
                tail[0],
                NV::Num(crate::numerics::num_of_count((k - 1) as u64)),
            ));
            match eval_s(scope@, st1, (f_pre - 1) as nat) {
                None => {
                    assert(eval_filter_s(
                        tail,
                        (k - 1) as nat,
                        acc_pre,
                        pviews,
                        scope@,
                        st_pre,
                        f_pre,
                    ) is None);
                },
                Some(t) => {},
            }
        }
    }
    if k >= elems.len() {
        (N::Array(acc), f)
    } else {
        (N::Unit, 0)
    }
}

/// Folds the elements of an array by a function, left to right, starting
/// from the first element.
fn exec_fold(elems: &Vec<N>, params: &Vec<String>, scope: &N, ctx: &mut Ctx, fuel: u64) -> (r: (
    N,
    u64,
))
    requires
        old(ctx).wf(),
        elems@.len() > 0,
    ensures
        final(ctx).wf(),
        final(ctx).code == old(ctx).code,
        r.1 <= fuel,
        old(ctx).binds().len() <= final(ctx).binds().len(),
        match eval_fold_s(
            seq_view(elems@).subrange(1, seq_view(elems@).len() as int),
            seq_view(elems@)[0],
            ident_views(params@),
            scope@,
            old(ctx).binds(),
            fuel as nat,
        ) {
            Some(t) => r.0@ == t.0 && final(ctx).binds() == t.1 && r.1 as nat == t.2,
            None => true,
        },
    decreases fuel, 0int, 1int,
{
    let ghost st0 = ctx.binds();
    let ghost full = seq_view(elems@);
    let ghost pviews = ident_views(params@);
    let mut acc: N = crate::ast::clone_node(&elems[0]);
    let mut f = fuel;
    let mut k: usize = 1;
    proof {
        lemma_seq_view(elems@);
    }
    loop
        invariant_except_break
            eval_fold_s(
                full.subrange(1, full.len() as int),
                full[0],
                pviews,
                scope@,
                st0,
                fuel as nat,
            ) is None || eval_fold_s(
                full.subrange(1, full.len() as int),
                full[0],
                pviews,
                scope@,
                st0,
                fuel as nat,
            ) == eval_fold_s(
                full.subrange(k as int, full.len() as int),
                acc@,
                pviews,
                scope@,
                ctx.binds(),
                f as nat,
            ),
        invariant
            ctx.wf(),
            f <= fuel,
            1 <= k <= elems@.len(),
            full == seq_view(elems@),
            full.len() == elems@.len(),
            pviews == ident_views(params@),
            ctx.code == old(ctx).code,
            st0.len() == ctx.binds().len(),
        ensures
            ctx.wf(),
            f <= fuel,
            1 <= k <= elems@.len(),
            ctx.code == old(ctx).code,
            st0.len() <= ctx.binds().len(),
            eval_fold_s(
                full.subrange(1, full.len() as int),
                full[0],
                pviews,
                scope@,
                st0,
                fuel as nat,
            ) is None || (k >= elems@.len() && eval_fold_s(
                full.subrange(1, full.len() as int),
                full[0],
                pviews,
                scope@,
                st0,
                fuel as nat,
            ) == Some((acc@, ctx.binds(), f as nat))) || (k < elems@.len() && f == 0
                && eval_fold_s(
                full.subrange(1, full.len() as int),
                full[0],
                pviews,
                scope@,
                st0,
                fuel as nat,
            ) == Some((NV::Unit, ctx.binds(), 0nat))),
        decreases elems@.len() - k,
    {
        if k >= elems.len() {
            proof {
                assert(full.subrange(k as int, full.len() as int) =~= Seq::<NV>::empty());
            }
            break;
        }
        if f == 0 {
            break;
        }
        let ghost st_pre = ctx.binds();
        let ghost f_pre = f as nat;
        let ghost acc_pre = acc@;
        let ghost tail = full.subrange(k as int, full.len() as int);
        f = f - 1;
        let mark = ctx.values.len();
        let elem = crate::ast::clone_node(&elems[k]);
        push_elem_binds(params, &acc, &elem, ctx);
        let ghost st1 = ctx.binds();
        proof {
            assert(st1 == elem_binds(st_pre, pviews, acc@, elem@));
        }
        let (rv, f2) = eval_fueled(scope, ctx, f);
        ctx.drain(mark);
        acc = rv;
        f = f2;
        k = k + 1;
        proof {
            lemma_seq_view(elems@);
            assert(tail[0] == elems@[k - 1]@);
            assert(tail.subrange(1, tail.len() as int) =~= full.subrange(
                k as int,
                full.len() as int,
            ));
            assert(st1 == elem_binds(st_pre, pviews, acc_pre, tail[0]));
            match eval_s(scope@, st1, (f_pre - 1) as nat) {
                None => {
                    assert(eval_fold_s(tail, acc_pre, pviews, scope@, st_pre, f_pre) is None);
                },
                Some(t) => {},
            }
        }
    }
    if k >= elems.len() {
        (acc, f)
    } else {
        (N::Unit, 0)
    }
}

/// Interprets the node against the context, with the largest step budget.
pub fn eval(n: &N, ctx: &mut Ctx) -> (res: N)
    requires
        old(ctx).wf(),
    ensures
        final(ctx).wf(),
        final(ctx).code == old(ctx).code,
        old(ctx).binds().len() <= final(ctx).binds().len(),
        match eval_s(n@, old(ctx).binds(), u64::MAX as nat) {
            Some(t) => res@ == t.0 && final(ctx).binds() == t.1,
            None => true,
        },
{
    let (res, _) = eval_fueled(n, ctx, u64::MAX);
    res
}

/// A whole session over one piece of text: parse one top-level expression,
/// evaluate it against the growing state, repeat until no further expression
/// parses; the result of the last expression, or the unit value where none
/// parsed. `None` where a run invoked a host callback — which a session
/// started from plain text never does, since parsed programs hold no native
/// values and the state starts empty.
pub open spec fn run_s(code: Seq<char>, st: Binds, last: NV) -> Option<(NV, Binds)>
    decreases code.len(),
{
    match crate::parser::parse_expr_s(code, 0) {
        Err(_) => Some((last, st)),
        Ok((nv, used)) => {
            if 0 < used <= code.len() {
                match eval_s(nv, st, u64::MAX as nat) {
                    None => None,
                    Some((v, st2, _)) => run_s(code.subrange(used, code.len() as int), st2, v),
                }
            } else {
                Some((last, st))
            }
        },
    }
}

/// Parses and evaluates every top-level expression of `code` against a
/// fresh context, and returns the last result.
pub fn parse_eval(code: &str) -> (res: N)
    ensures
        run_s(code@, Seq::empty(), NV::Unit) matches Some(t) && res@ == t.0,
{
    let mut ctx = Ctx::new();
    ctx.insert_code(code);
    let mut res = N::Unit;
    proof {
        assert(Seq::<char>::empty() + code@ =~= code@);
        crate::laws::lemma_run_total(code@, Seq::empty(), NV::Unit);
    }
    loop
        invariant
            ctx.wf(),
            run_s(code@, Seq::empty(), NV::Unit) is None || run_s(code@, Seq::empty(), NV::Unit)
                == run_s(ctx.code@, ctx.binds(), res@),
        ensures
            run_s(code@, Seq::empty(), NV::Unit) is None || run_s(code@, Seq::empty(), NV::Unit)
                == Some((res@, ctx.binds())),
        decreases ctx.code@.len(),
    {
        let ghost code_pre = ctx.code@;
        let ghost st_pre = ctx.binds();
        let ghost res_pre = res@;
        let parsed = ctx.parse_next_expr();
        match parsed {
            Ok(n) => {
                let ghost nv = n@;
                let v = eval(&n, &mut ctx);
                res = v;
                proof {
                    match eval_s(nv, st_pre, u64::MAX as nat) {
                        None => {
                            assert(run_s(code_pre, st_pre, res_pre) is None);
                        },
                        Some(t) => {},
                    }
                }
            },
            Err(_) => {
                break;
            },
        }
    }
    res
}

} // verus!
