//! An embeddable scripting-language engine: a lexer, a recursive-descent
//! parser, and a tree-walking evaluator with closures, for a small
//! dynamically-typed expression language (numbers, strings, arrays, blocks,
//! conditionals, loops, first-class functions).
//!
//! Every component is specified against a mathematical model of the language:
//! the lexer, the parser and the evaluator each come with a specification
//! function, and the executable code is proved to return exactly what the
//! model says.
pub mod ast;
pub mod ctx;
pub mod dup;
pub mod eval;
pub mod laws;
pub mod lexer;
pub mod parser;
pub mod values;
pub mod numerics;

pub use ast::{HostFn, Native, Op, N, NV};
pub use ctx::Ctx;
pub use dup::dup;
pub use eval::{eval, eval_fueled, parse_eval};
pub use parser::Error;

use vstd::prelude::*;

verus! {

/// A run of spaces five columns wide per level, used to indent diagnostics.
pub fn pa(i: usize) -> (r: String)
    requires
        i * 5 <= usize::MAX,
    ensures
        r@.len() == i * 5,
        forall|k: int| 0 <= k < r@.len() ==> r@[k] == ' ',
{
    let mut r = String::new();
    let mut k: usize = 0;
    let n = i * 5;
    while k < n
        invariant
            k <= n,
            n == i * 5,
            r@.len() == k,
            forall|j: int| 0 <= j < k ==> r@[j] == ' ',
        decreases n - k,
    {
        crate::lexer::push_char(&mut r, ' ');
        k = k + 1;
    }
    r
}

} // verus!
