//! What a runtime value means: truthiness, text, the size measure used to
//! show the evaluator terminates, and truncation of a number to a machine
//! integer for array indexing.
use vstd::prelude::*;

use crate::ast::{NV, N};
use crate::numerics::{num_truthy, text_of_num, SIGN_BIT, ONE_BITS, exec_num_truthy,
    exec_text_of_num};
use vstd::arithmetic::power2::{pow2, lemma_pow2_pos, lemma_pow2_strictly_increases, lemma2_to64,
    lemma2_to64_rest};
use vstd::arithmetic::div_mod::{lemma_basic_div, lemma_div_nonincreasing};
use vstd::bits::{lemma_u64_shl_is_mul, lemma_u64_shr_is_div};

verus! {

/// The size of a node: one more than the sizes of its children together.
pub open spec fn nv_size(n: NV) -> nat
    decreases n,
{
    match n {
        NV::FuncCall { func, args } => 1 + nv_size(*func) + nvs_size(args),
        NV::Block(stmts) => 1 + nvs_size(stmts),
        NV::If { condition, path_true, path_false } => 1 + nv_size(*condition) + nv_size(
            *path_true,
        ) + nv_size(*path_false),
        NV::While { condition, body } => 1 + nv_size(*condition) + nv_size(*body),
        NV::Let(_, val) => 1 + nv_size(*val),
        NV::Binary(_, l, r) => 1 + nv_size(*l) + nv_size(*r),
        NV::FuncDef { args_name, scope } => 1 + nv_size(*scope),
        NV::Array(elems) => 1 + nvs_size(elems),
        _ => 1,
    }
}

/// The sizes of the nodes of a sequence, together.
pub open spec fn nvs_size(s: Seq<NV>) -> nat
    decreases s,
{
    if s.len() == 0 {
        0
    } else {
        nv_size(s[0]) + nvs_size(s.subrange(1, s.len() as int))
    }
}

/// A node's size is positive.
pub proof fn lemma_nv_size_pos(n: NV)
    ensures
        nv_size(n) >= 1,
{
}

/// Each node of a sequence weighs no more than the whole sequence.
pub proof fn lemma_nvs_size_index(s: Seq<NV>, i: int)
    requires
        0 <= i < s.len(),
    ensures
        nv_size(s[i]) <= nvs_size(s),
    decreases s.len(),
{
    if i > 0 {
        let rest = s.subrange(1, s.len() as int);
        lemma_nvs_size_index(rest, i - 1);
        assert(rest[i - 1] == s[i]);
    }
}

/// Dropping the head of a sequence drops the head's weight.
pub proof fn lemma_nvs_size_drop(s: Seq<NV>)
    requires
        s.len() > 0,
    ensures
        nvs_size(s.subrange(1, s.len() as int)) < nvs_size(s),
{
    lemma_nv_size_pos(s[0]);
}

/// Truthiness: a number is truthy unless it equals zero, a string or array
/// is truthy unless it is empty, everything else is falsy.
pub open spec fn truthy(v: NV) -> bool {
    match v {
        NV::Num(bits) => num_truthy(bits),
        NV::Str(s) => s.len() > 0,
        NV::Array(elems) => elems.len() > 0,
        _ => false,
    }
}

/// The number the language uses for a boolean: one or zero.
pub open spec fn bool_nv(b: bool) -> NV {
    NV::Num(if b {
        ONE_BITS
    } else {
        0
    })
}

/// The text of a value: the decimal text of a number, the characters of a
/// string, and a fixed tag for every other shape of value.
pub open spec fn text_of(v: NV) -> Seq<char> {
    match v {
        NV::Num(bits) => text_of_num(bits),
        NV::Str(s) => s,
        NV::Unit => "Unit"@,
        NV::Array(_) => "Array"@,
        NV::FuncDef { .. } => "FuncDef"@,
        NV::FuncNativeDef(_) => "FuncNativeDef"@,
        NV::FuncCall { .. } => "FuncCall"@,
        NV::Block(_) => "Block"@,
        NV::If { .. } => "If"@,
        NV::While { .. } => "While"@,
        NV::Let(_, _) => "Let"@,
        NV::Get(_) => "Get"@,
        NV::Binary(_, _, _) => "Binary"@,
    }
}

/// A node and its view take the same variant.
pub proof fn lemma_shape(x: N)
    ensures
        (x@ is Array) <==> (x is Array),
        (x@ is FuncDef) <==> (x is FuncDef),
{
    match x {
        N::FuncCall { .. } => {},
        N::Block(..) => {},
        N::If { .. } => {},
        N::While { .. } => {},
        N::Let(..) => {},
        N::Get(..) => {},
        N::Binary(..) => {},
        N::FuncDef { .. } => {},
        N::FuncNativeDef(..) => {},
        N::Array(..) => {},
        N::Num(..) => {},
        N::Str(..) => {},
        N::Unit => {},
    }
}

impl N {
    /// Casts the value to a boolean, by the truthiness rule.
    pub fn to_bool(&self) -> (b: bool)
        ensures
            b == truthy(self@),
    {
        match self {
            N::Num(bits) => {
                exec_num_truthy(*bits)
            },
            N::Str(s) => !s.as_str().is_empty(),
            N::Array(elems) => {
                proof {
                    crate::ast::lemma_seq_view(elems@);
                }
                elems.len() != 0
            },
            _ => false,
        }
    }

    /// The text of the value.
    pub fn to_str(&self) -> (s: String)
        ensures
            s@ == text_of(self@),
    {
        match self {
            N::Num(bits) => exec_text_of_num(*bits),
            N::Str(s) => s.clone(),
            N::Unit => "Unit".to_owned(),
            N::Array(_) => "Array".to_owned(),
            N::FuncDef { .. } => "FuncDef".to_owned(),
            N::FuncNativeDef(_) => "FuncNativeDef".to_owned(),
            N::FuncCall { .. } => "FuncCall".to_owned(),
            N::Block(_) => "Block".to_owned(),
            N::If { .. } => "If".to_owned(),
            N::While { .. } => "While".to_owned(),
            N::Let(_, _) => "Let".to_owned(),
            N::Get(_) => "Get".to_owned(),
            N::Binary(_, _, _) => "Binary".to_owned(),
        }
    }
}

/// The language's boolean, as a node.
pub(crate) fn bool_n(b: bool) -> (r: N)
    ensures
        r@ == bool_nv(b),
{
    if b {
        N::Num(ONE_BITS)
    } else {
        N::Num(0)
    }
}

/// The magnitude of a double truncated toward zero; a NaN truncates to zero
/// and an infinity to a value too large for any machine integer.
pub open spec fn abs_trunc(bits: u64) -> int {
    let e = ((bits >> 52) & 0x7FF) as int;
    let m = (bits & 0xF_FFFF_FFFF_FFFF) as int;
    if e == 0x7FF {
        if m == 0 {
            0x1_0000_0000_0000_0000
        } else {
            0
        }
    } else if e == 0 {
        m / (pow2(1074) as int)
    } else {
        let sig = m + 0x10_0000_0000_0000;
        if e >= 1075 {
            sig * (pow2((e - 1075) as nat) as int)
        } else {
            sig / (pow2((1075 - e) as nat) as int)
        }
    }
}

/// A double truncated toward zero and saturated to the signed 64-bit range;
/// this is what array indexing makes of its argument.
pub open spec fn num_trunc(bits: u64) -> int {
    let a = abs_trunc(bits);
    let v = if bits >= SIGN_BIT {
        -a
    } else {
        a
    };
    if v < -0x8000_0000_0000_0000 {
        -0x8000_0000_0000_0000
    } else if v > 0x7FFF_FFFF_FFFF_FFFF {
        0x7FFF_FFFF_FFFF_FFFF
    } else {
        v
    }
}

/// Truncates a double toward zero, saturating to the signed 64-bit range.
pub fn exec_num_trunc(bits: u64) -> (r: i64)
    ensures
        r as int == num_trunc(bits),
{
    let e = (bits >> 52) & 0x7FF;
    let m = bits & 0xF_FFFF_FFFF_FFFF;
    let neg = bits >= SIGN_BIT;
    proof {
        assert(((bits >> 52) & 0x7FF) <= 0x7FF) by (bit_vector);
        assert((bits & 0xF_FFFF_FFFF_FFFF) < 0x10_0000_0000_0000) by (bit_vector);
    }
    if e == 0x7FF {
        if m != 0 {
            0
        } else if neg {
            i64::MIN
        } else {
            i64::MAX
        }
    } else if e < 1023 {
        proof {
            lemma2_to64();
            lemma2_to64_rest();
            if e == 0 {
                lemma_pow2_strictly_increases(52, 1074);
                lemma_basic_div(m as int, pow2(1074) as int);
            } else {
                let d = (1075 - e) as nat;
                if d > 53 {
                    lemma_pow2_strictly_increases(53, d);
                }
                lemma_basic_div(m as int + 0x10_0000_0000_0000, pow2(d) as int);
            }
        }
        0
    } else if e >= 1086 {
        proof {
            let sh = (e - 1075) as nat;
            lemma2_to64();
            lemma2_to64_rest();
            if sh > 11 {
                lemma_pow2_strictly_increases(11, sh);
            }
            let sig = m as int + 0x10_0000_0000_0000;
            assert(sig * (pow2(sh) as int) >= 0x8000_0000_0000_0000) by (nonlinear_arith)
                requires
                    sig >= 0x10_0000_0000_0000,
                    pow2(sh) >= 0x800,
            ;
        }
        if neg {
            i64::MIN
        } else {
            i64::MAX
        }
    } else {
        let sig = m + 0x10_0000_0000_0000;
        let a: u64 = if e >= 1075 {
            let sh = e - 1075;
            proof {
                lemma2_to64();
                lemma2_to64_rest();
                if sh < 10 {
                    lemma_pow2_strictly_increases(sh as nat, 10);
                }
                assert(sig * (pow2(sh as nat) as int) < 0x8000_0000_0000_0000)
                    by (nonlinear_arith)
                    requires
                        0 <= sig < 0x20_0000_0000_0000,
                        0 < pow2(sh as nat) <= 0x400,
                ;
                lemma_u64_shl_is_mul(sig, sh);
            }
            sig << sh
        } else {
            let sh = 1075 - e;
            proof {
                lemma_u64_shr_is_div(sig, sh);
                lemma_pow2_pos(sh as nat);
                lemma_div_nonincreasing(sig as int, pow2(sh as nat) as int);
            }
            sig >> sh
        };
                if neg {
            -(a as i64)
        } else {
            a as i64
        }
    }
}

} // verus!
