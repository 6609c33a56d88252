//! The AST node type of the language, its ghost view, and the host-callback
//! wrapper. A node doubles as a runtime value: the terminal variants
//! (numbers, strings, arrays, function values, the unit value) are exactly
//! what evaluation produces.
use vstd::prelude::*;

use std::rc::Rc;

verus! {

/// Binary operators of the script language.
#[derive(Debug, Clone, Copy, PartialEq, Eq, Structural)]
pub enum Op {
    Mul,
    Div,
    Equals,
    NotEquals,
    Lesser,
    Greater,
    Modulus,
    And,
    Or,
    Plus,
    Plus2,
    Shift,
    Minus,
    Assign,
}

impl Op {
    /// True for the operators parsed at expression level: every operator but
    /// the two multiplicative ones, which bind at term level.
    pub fn term_separate(self) -> (r: bool)
        ensures
            r == (self != Op::Mul && self != Op::Div),
    {
        match self {
            Op::Mul | Op::Div => false,
            _ => true,
        }
    }
}

/// A host callback: up to four positional arguments in, one value out. The
/// host implements this trait for its own type; the callback may re-enter the
/// evaluator with a context of its own.
pub trait HostFn {
    fn call4(&self, a: N, b: N, c: N, d: N) -> N;
}

/// Host-provided callable, inserted into a script as a value. The callback
/// itself lives outside the verified boundary: nothing is assumed about what
/// it returns.
#[verifier::external_body]
pub struct Native(Rc<dyn HostFn>);

impl Native {
    /// Wraps a host callback as a script value; the caller hands over shared
    /// ownership of it.
    #[verifier::external_body]
    pub fn new(f: Rc<dyn HostFn>) -> Native {
        Native(f)
    }

    /// Invokes the host callback with four positional arguments. The callback
    /// is opaque, so nothing is promised of the result.
    #[verifier::external_body]
    pub fn call(&self, a: N, b: N, c: N, d: N) -> N {
        self.0.call4(a, b, c, d)
    }
}

impl Clone for Native {
    /// Relies on `Rc::clone`: the clone shares the very same callback, so the
    /// two wrappers are the same value.
    #[verifier::external_body]
    fn clone(&self) -> (res: Native)
        ensures
            res == *self,
    {
        Native(self.0.clone())
    }
}

/// An AST node. The first seven variants contain sub-expressions and are
/// consumed by evaluation; the remaining variants are terminal and double as
/// runtime values.
pub enum N {
    FuncCall { func: Box<N>, args: Vec<N> },
    Block(Vec<N>),
    If { condition: Box<N>, path_true: Box<N>, path_false: Box<N> },
    While { condition: Box<N>, body: Box<N> },
    Let(String, Box<N>),
    Get(String),
    Binary(Op, Box<N>, Box<N>),
    FuncDef { args_name: Vec<String>, scope: Box<N> },
    FuncNativeDef(Native),
    Array(Vec<N>),
    /// A number, held as the bit pattern of an IEEE-754 double.
    Num(u64),
    Str(String),
    Unit,
}

/// The mathematical shape of a node: sequences in place of vectors, character
/// sequences in place of strings. All contracts speak of this view.
#[verifier::ext_equal]
pub enum NV {
    FuncCall { func: Box<NV>, args: Seq<NV> },
    Block(Seq<NV>),
    If { condition: Box<NV>, path_true: Box<NV>, path_false: Box<NV> },
    While { condition: Box<NV>, body: Box<NV> },
    Let(Seq<char>, Box<NV>),
    Get(Seq<char>),
    Binary(Op, Box<NV>, Box<NV>),
    FuncDef { args_name: Seq<Seq<char>>, scope: Box<NV> },
    FuncNativeDef(Native),
    Array(Seq<NV>),
    Num(u64),
    Str(Seq<char>),
    Unit,
}

/// The views of the nodes of a sequence, in order.
pub open spec fn seq_view(s: Seq<N>) -> Seq<NV>
    decreases s,
{
    if s.len() == 0 {
        Seq::empty()
    } else {
        seq_view(s.subrange(0, s.len() - 1)).push(s[s.len() - 1]@)
    }
}

/// The views of the identifiers of a sequence, in order.
pub open spec fn ident_views(s: Seq<String>) -> Seq<Seq<char>> {
    Seq::new(s.len(), |i: int| s[i]@)
}

impl View for N {
    type V = NV;

    open spec fn view(&self) -> NV
        decreases self,
    {
        match self {
            N::FuncCall { func, args } => NV::FuncCall {
                func: Box::new((**func)@),
                args: seq_view(args@),
            },
            N::Block(stmts) => NV::Block(seq_view(stmts@)),
            N::If { condition, path_true, path_false } => NV::If {
                condition: Box::new((**condition)@),
                path_true: Box::new((**path_true)@),
                path_false: Box::new((**path_false)@),
            },
            N::While { condition, body } => NV::While {
                condition: Box::new((**condition)@),
                body: Box::new((**body)@),
            },
            N::Let(name, val) => NV::Let(name@, Box::new((**val)@)),
            N::Get(name) => NV::Get(name@),
            N::Binary(op, l, r) => NV::Binary(*op, Box::new((**l)@), Box::new((**r)@)),
            N::FuncDef { args_name, scope } => NV::FuncDef {
                args_name: ident_views(args_name@),
                scope: Box::new((**scope)@),
            },
            N::FuncNativeDef(native) => NV::FuncNativeDef(*native),
            N::Array(elems) => NV::Array(seq_view(elems@)),
            N::Num(bits) => NV::Num(*bits),
            N::Str(s) => NV::Str(s@),
            N::Unit => NV::Unit,
        }
    }
}

/// A deep copy of a vector of identifiers; the copy is equal to the original.
pub fn clone_idents(v: &Vec<String>) -> (res: Vec<String>)
    ensures
        res@ == v@,
{
    let mut out: Vec<String> = Vec::new();
    let mut j: usize = 0;
    while j < v.len()
        invariant
            j <= v.len(),
            out@.len() == j,
            forall|k: int| 0 <= k < j ==> out@[k] == v@[k],
        decreases v.len() - j,
    {
        out.push(v[j].clone());
        j += 1;
    }
    proof {
        assert(out@ =~= v@);
    }
    out
}

/// A deep copy of a vector of nodes; each copy has the view of its original.
pub fn clone_nodes(v: &Vec<N>) -> (res: Vec<N>)
    ensures
        seq_view(res@) == seq_view(v@),
    decreases v,
{
    let mut out: Vec<N> = Vec::new();
    let mut j: usize = 0;
    while j < v.len()
        invariant
            j <= v.len(),
            out@.len() == j,
            forall|k: int| 0 <= k < j ==> #[trigger] out@[k]@ == v@[k]@,
        decreases v.len() - j,
    {
        out.push(clone_node(&v[j]));
        j += 1;
    }
    proof {
        lemma_seq_view_pointwise(out@, v@);
    }
    out
}

/// A deep copy of a node; the copy has the same view.
pub fn clone_node(n: &N) -> (res: N)
    ensures
        res@ == n@,
    decreases n,
{
    match n {
        N::FuncCall { func, args } => N::FuncCall {
            func: Box::new(clone_node(func)),
            args: clone_nodes(args),
        },
        N::Block(stmts) => N::Block(clone_nodes(stmts)),
        N::If { condition, path_true, path_false } => N::If {
            condition: Box::new(clone_node(condition)),
            path_true: Box::new(clone_node(path_true)),
            path_false: Box::new(clone_node(path_false)),
        },
        N::While { condition, body } => N::While {
            condition: Box::new(clone_node(condition)),
            body: Box::new(clone_node(body)),
        },
        N::Let(name, val) => N::Let(name.clone(), Box::new(clone_node(val))),
        N::Get(name) => N::Get(name.clone()),
        N::Binary(op, l, r) => N::Binary(
            *op,
            Box::new(clone_node(l)),
            Box::new(clone_node(r)),
        ),
        N::FuncDef { args_name, scope } => N::FuncDef {
            args_name: clone_idents(args_name),
            scope: Box::new(clone_node(scope)),
        },
        N::FuncNativeDef(native) => N::FuncNativeDef(native.clone()),
        N::Array(elems) => N::Array(clone_nodes(elems)),
        N::Num(bits) => N::Num(*bits),
        N::Str(s) => N::Str(s.clone()),
        N::Unit => N::Unit,
    }
}

/// What `seq_view` says of each position.
pub proof fn lemma_seq_view(s: Seq<N>)
    ensures
        seq_view(s).len() == s.len(),
        forall|i: int| 0 <= i < s.len() ==> seq_view(s)[i] == s[i]@,
    decreases s.len(),
{
    if s.len() > 0 {
        let pre = s.subrange(0, s.len() - 1);
        lemma_seq_view(pre);
        assert(seq_view(s) == seq_view(pre).push(s[s.len() - 1]@));
        assert forall|i: int| 0 <= i < s.len() implies seq_view(s)[i] == s[i]@ by {
            if i < s.len() - 1 {
                assert(seq_view(s)[i] == seq_view(pre)[i]);
                assert(pre[i] == s[i]);
            }
        }
    }
}

/// Appending a node appends its view.
pub proof fn lemma_seq_view_push(s: Seq<N>, n: N)
    ensures
        seq_view(s.push(n)) == seq_view(s).push(n@),
{
    lemma_seq_view(s);
    lemma_seq_view(s.push(n));
    assert(seq_view(s.push(n)) =~= seq_view(s).push(n@));
}

/// Appending an identifier appends its view.
pub proof fn lemma_ident_views_push(s: Seq<String>, id: String)
    ensures
        ident_views(s.push(id)) == ident_views(s).push(id@),
{
    assert(ident_views(s.push(id)) =~= ident_views(s).push(id@));
}

/// Sequences whose nodes have equal views have equal views.
pub proof fn lemma_seq_view_pointwise(a: Seq<N>, b: Seq<N>)
    requires
        a.len() == b.len(),
        forall|i: int| 0 <= i < a.len() ==> #[trigger] a[i]@ == b[i]@,
    ensures
        seq_view(a) == seq_view(b),
{
    lemma_seq_view(a);
    lemma_seq_view(b);
    assert(seq_view(a) =~= seq_view(b));
}

impl Clone for N {
    /// A deep copy: the clone has the same view as the original.
    fn clone(&self) -> (res: N)
        ensures
            res@ == self@,
    {
        clone_node(self)
    }
}

} // verus!
