//! The execution context: the variable stack — two index-aligned vectors of
//! names and values — plus the buffer of pending script text. Lexical scope
//! is implemented by recording the stack length on entry and truncating back
//! to it on exit; name resolution returns the last (highest-index) match,
//! which is what makes shadowing work.
use vstd::prelude::*;

use crate::ast::{NV, N};
use vstd::pervasive::VecAdditionalExecFns;
use vstd::std_specs::iter::IteratorSpec;

verus! {

broadcast use vstd::string::next_postcondition;

/// The binding stack as mathematics: a sequence of (name, value) pairs,
/// innermost binding last.
pub type Binds = Seq<(Seq<char>, NV)>;

/// The index of the last binding of `name`, or `None` where no binding
/// carries that name. The last match implements shadowing.
pub open spec fn lookup_name(binds: Binds, name: Seq<char>) -> Option<int>
    decreases binds.len(),
{
    if binds.len() == 0 {
        None
    } else if binds[binds.len() - 1].0 == name {
        Some(binds.len() - 1)
    } else {
        lookup_name(binds.subrange(0, binds.len() - 1), name)
    }
}

/// What `lookup_name` returns is a position of the stack that carries the
/// name, and no later position does.
pub proof fn lemma_lookup_name(binds: Binds, name: Seq<char>)
    ensures
        match lookup_name(binds, name) {
            Some(i) => 0 <= i < binds.len() && binds[i].0 == name && (forall|j: int|
                i < j < binds.len() ==> binds[j].0 != name),
            None => forall|j: int| 0 <= j < binds.len() ==> binds[j].0 != name,
        },
    decreases binds.len(),
{
    let n = binds.len() as int;
    if n > 0 && binds[n - 1].0 != name {
        let pre = binds.subrange(0, n - 1);
        lemma_lookup_name(pre, name);
        match lookup_name(pre, name) {
            Some(i) => {
                assert(binds[i] == pre[i]);
                assert forall|j: int| i < j < n implies binds[j].0 != name by {
                    if j < n - 1 {
                        assert(pre[j] == binds[j]);
                    }
                }
            },
            None => {
                assert forall|j: int| 0 <= j < n implies binds[j].0 != name by {
                    if j < n - 1 {
                        assert(pre[j] == binds[j]);
                    }
                }
            },
        }
    }
}

/// Equality of two string slices. Relies on `str::eq`: two slices are equal
/// exactly when their characters are.
#[verifier::external_body]
pub(crate) fn str_eq(a: &str, b: &str) -> (r: bool)
    ensures
        r == (a@ == b@),
{
    a == b
}

/// Interpreter context; holds all state during execution.
pub struct Ctx {
    pub values: Vec<N>,
    pub idents: Vec<String>,
    pub code: Vec<char>,
}

impl Ctx {
    /// The two stacks are index-aligned.
    pub open spec fn wf(&self) -> bool {
        self.values@.len() == self.idents@.len()
    }

    /// The binding stack as a sequence of (name, value) pairs.
    pub open spec fn binds(&self) -> Binds {
        Seq::new(
            self.idents@.len(),
            |i: int| (self.idents@[i]@, if 0 <= i < self.values@.len() {
                self.values@[i]@
            } else {
                NV::Unit
            }),
        )
    }

    /// An empty context: no bindings, no pending text.
    pub fn new() -> (res: Ctx)
        ensures
            res.wf(),
            res.binds() == Seq::<(Seq<char>, NV)>::empty(),
            res.code@ == Seq::<char>::empty(),
    {
        let res = Ctx { values: Vec::new(), idents: Vec::new(), code: Vec::new() };
        proof {
            assert(res.binds() =~= Seq::<(Seq<char>, NV)>::empty());
        }
        res
    }

    /// Scope exit: forget every binding at position `from` or later.
    pub fn drain(&mut self, from: usize)
        requires
            old(self).wf(),
            from <= old(self).idents@.len(),
        ensures
            final(self).wf(),
            final(self).binds() == old(self).binds().subrange(0, from as int),
            final(self).code == old(self).code,
    {
        self.values.truncate(from);
        self.idents.truncate(from);
        proof {
            assert(self.binds() =~= old(self).binds().subrange(0, from as int));
        }
    }

    /// Binds `name` to `n` by appending: an earlier binding of the same name
    /// is shadowed, not overwritten.
    pub fn set_val(&mut self, name: &str, n: N)
        requires
            old(self).wf(),
        ensures
            final(self).wf(),
            final(self).binds() == old(self).binds().push((name@, n@)),
            final(self).code == old(self).code,
    {
        let ghost nv = n@;
        self.idents.push(name.to_owned());
        self.values.push(n);
        proof {
            assert(self.binds() =~= old(self).binds().push((name@, nv)));
        }
    }

    /// Overwrites the binding at position `i` in place; this is what `=`
    /// (assignment) does, in contrast with `let`.
    pub fn set_val_absolute(&mut self, i: usize, name: &str, n: N)
        requires
            old(self).wf(),
            i < old(self).idents@.len(),
        ensures
            final(self).wf(),
            final(self).binds() == old(self).binds().update(i as int, (name@, n@)),
            final(self).code == old(self).code,
    {
        let ghost nv = n@;
        self.idents.set(i, name.to_owned());
        self.values.set(i, n);
        proof {
            assert(self.binds() =~= old(self).binds().update(i as int, (name@, nv)));
        }
    }

    /// Finds the innermost binding of `name`: its position on the stack, or
    /// `None` where the name is unbound.
    pub fn find_var(&self, name: &str) -> (r: Option<usize>)
        requires
            self.wf(),
        ensures
            match r {
                Some(i) => lookup_name(self.binds(), name@) == Some(i as int),
                None => lookup_name(self.binds(), name@) is None,
            },
    {
        let ghost binds = self.binds();
        let mut j: usize = self.idents.len();
        proof {
            assert(binds.subrange(0, j as int) =~= binds);
        }
        loop
            invariant
                self.wf(),
                binds == self.binds(),
                j <= self.idents@.len(),
                lookup_name(binds, name@) == lookup_name(
                    binds.subrange(0, j as int),
                    name@,
                ),
            decreases j,
        {
            if j == 0 {
                proof {
                    assert(binds.subrange(0, 0) =~= Seq::<(Seq<char>, NV)>::empty());
                }
                return None;
            }
            j = j - 1;
            if str_eq(self.idents[j].as_str(), name) {
                proof {
                    let pre = binds.subrange(0, j + 1);
                    assert(pre[pre.len() - 1].0 == name@);
                }
                return Some(j);
            }
            proof {
                let pre = binds.subrange(0, j + 1);
                assert(pre[pre.len() - 1].0 != name@);
                assert(pre.subrange(0, j as int) =~= binds.subrange(0, j as int));
            }
        }
    }

    /// Appends raw script text to the pending-text buffer.
    pub fn insert_code(&mut self, code: &str)
        ensures
            final(self).code@ == old(self).code@ + code@,
            final(self).values == old(self).values,
            final(self).idents == old(self).idents,
    {
        let ghost target = self.code@ + code@;
        let mut it = code.chars();
        loop
            invariant
                self.code@ + it.remaining() == target,
                self.values == old(self).values,
                self.idents == old(self).idents,
                it.decrease() is Some,
            ensures
                self.code@ == target,
                self.values == old(self).values,
                self.idents == old(self).idents,
            decreases it.decrease()->0,
        {
            match it.next() {
                Some(c) => {
                    self.code.push(c);
                    proof {
                        assert(self.code@ + it.remaining() =~= target);
                    }
                },
                None => {
                    proof {
                        assert(it.obeys_prophetic_iter_laws());
                        assert(it.remaining().len() == 0);
                        assert(self.code@ =~= target);
                    }
                    break;
                },
            }
        }
    }
}

impl Default for Ctx {
    /// The default context is the empty one.
    fn default() -> (res: Ctx)
        ensures
            res.wf(),
            res.binds() == Seq::<(Seq<char>, NV)>::empty(),
            res.code@ == Seq::<char>::empty(),
    {
        Ctx::new()
    }
}

} // verus!
