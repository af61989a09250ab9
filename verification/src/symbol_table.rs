//! Nested lexical scopes mapping names to declared types and mutability.
//!
//! The table is a flat stack of bindings together with a stack of scope start
//! indices, so entering and leaving a scope are constant-time. Lookup walks
//! the bindings from the most recent to the oldest, which makes an inner
//! binding shadow any outer binding of the same name, and a later binding in
//! one scope shadow an earlier one.

use crate::text::str_eq;
use crate::types::{type_view, Type, TypeV};
use vstd::prelude::*;

verus! {

broadcast use vstd::std_specs::vec::group_vec_axioms;

/// One name binding: its name, declared or inferred type, and mutability.
#[derive(Debug)]
pub struct Symbol {
    pub name: String,
    pub typ: Type,
    pub is_mutable: bool,
}

/// The mathematical form of a binding, used in contracts.
#[verifier::ext_equal]
pub struct SymbolV {
    pub name: Seq<char>,
    pub typ: TypeV,
    pub is_mutable: bool,
}

/// The mathematical form of one binding.
pub open spec fn sym_view(s: Symbol) -> SymbolV {
    SymbolV { name: s.name@, typ: type_view(s.typ), is_mutable: s.is_mutable }
}

/// The mathematical form of a binding stack.
pub open spec fn seq_sym_view(s: Seq<Symbol>) -> Seq<SymbolV> {
    Seq::new(s.len(), |i: int| sym_view(s[i]))
}

/// A stack of lexical scopes.
#[derive(Debug)]
pub struct SymbolTable {
    binds: Vec<Symbol>,
    scope_starts: Vec<usize>,
}

/// The binding `n` resolves to: the most recent binding of that name.
pub open spec fn spec_lookup(bs: Seq<SymbolV>, n: Seq<char>) -> Option<(TypeV, bool)>
    decreases bs.len(),
{
    if bs.len() == 0 {
        None
    } else if bs.last().name == n {
        Some((bs.last().typ, bs.last().is_mutable))
    } else {
        spec_lookup(bs.drop_last(), n)
    }
}

impl SymbolTable {
    /// The bindings currently live, oldest first.
    pub closed spec fn env(&self) -> Seq<SymbolV> {
        seq_sym_view(self.binds@)
    }

    /// The recorded scope starts, outermost first.
    pub closed spec fn starts(&self) -> Seq<usize> {
        self.scope_starts@
    }

    /// How many scopes are open beyond the outermost one.
    pub open spec fn depth(&self) -> nat {
        self.starts().len()
    }

    /// Well-formed: every recorded scope start lies within the binding stack
    /// and the starts never decrease.
    pub closed spec fn wf(&self) -> bool {
        &&& forall|i: int|
            0 <= i < self.scope_starts@.len() ==> #[trigger] self.scope_starts@[i]
                <= self.binds@.len()
        &&& forall|i: int, j: int|
            0 <= i < j < self.scope_starts@.len() ==> #[trigger] self.scope_starts@[i]
                <= #[trigger] self.scope_starts@[j]
    }

    /// The number of bindings held, as the machine sees it.
    pub closed spec fn binds_len(&self) -> usize {
        self.binds@.len() as usize
    }

    /// Where the innermost scope began: the length the binding stack will
    /// have again once that scope is left.
    pub open spec fn innermost_start(&self) -> int {
        if self.starts().len() == 0 {
            0
        } else {
            self.starts().last() as int
        }
    }

    /// Creates a table with only the outermost scope.
    pub fn new() -> (r: Self)
        ensures
            r.env() == Seq::<SymbolV>::empty(),
            r.depth() == 0,
            r.wf(),
    {
        let r = SymbolTable { binds: Vec::new(), scope_starts: Vec::new() };
        proof {
            assert(r.env() =~= Seq::<SymbolV>::empty());
        }
        r
    }

    /// Opens a new innermost scope.
    pub fn enter_scope(&mut self)
        requires
            old(self).wf(),
        ensures
            final(self).wf(),
            final(self).env() == old(self).env(),
            final(self).depth() == old(self).depth() + 1,
            final(self).innermost_start() == old(self).env().len(),
            final(self).starts() == old(self).starts().push(old(self).binds_len()),
    {
        let n: usize = self.binds.len();
        self.scope_starts.push(n);
        proof {
            assert forall|i: int, j: int|
                0 <= i < j < self.scope_starts@.len() implies #[trigger] self.scope_starts@[i]
                <= #[trigger] self.scope_starts@[j] by {
                if j < self.scope_starts@.len() - 1 {
                    assert(old(self).scope_starts@[i] <= old(self).scope_starts@[j]);
                } else {
                    assert(old(self).scope_starts@[i] <= old(self).binds@.len());
                }
            }
        }
    }

    /// Leaves the innermost scope, discarding every binding made in it.
    pub fn exit_scope(&mut self)
        requires
            old(self).wf(),
            old(self).depth() > 0,
        ensures
            final(self).wf(),
            final(self).depth() == old(self).depth() - 1,
            final(self).env() == old(self).env().take(old(self).innermost_start()),
            final(self).starts() == old(self).starts().drop_last(),
    {
        let start: usize = match self.scope_starts.pop() {
            Some(s) => s,
            None => 0,
        };
        self.binds.truncate(start);
        proof {
            assert(seq_sym_view(self.binds@) =~= old(self).env().take(
                old(self).innermost_start(),
            ));
        }
    }

    /// Defines `name` in the innermost scope, shadowing any other binding of
    /// the same name.
    pub fn define(&mut self, name: String, typ: Type, is_mutable: bool)
        requires
            old(self).wf(),
        ensures
            final(self).wf(),
            final(self).depth() == old(self).depth(),
            final(self).innermost_start() == old(self).innermost_start(),
            final(self).starts() == old(self).starts(),
            final(self).env() == old(self).env().push(
                SymbolV { name: name@, typ: type_view(typ), is_mutable },
            ),
    {
        let ghost entry = SymbolV { name: name@, typ: type_view(typ), is_mutable };
        self.binds.push(Symbol { name, typ, is_mutable });
        proof {
            assert(seq_sym_view(self.binds@) =~= old(self).env().push(entry));
        }
    }

    /// Looks `name` up, innermost binding first.
    pub fn lookup(&self, name: &str) -> (r: Option<&Symbol>)
        ensures
            match r {
                Some(s) => spec_lookup(self.env(), name@) == Some(
                    (type_view(s.typ), s.is_mutable),
                ) && s.name@ == name@,
                None => spec_lookup(self.env(), name@) is None,
            },
    {
        proof {
            assert(self.env().take(self.binds@.len() as int) =~= self.env());
        }
        let mut i: usize = self.binds.len();
        while i > 0
            invariant
                i <= self.binds@.len(),
                spec_lookup(self.env(), name@) == spec_lookup(
                    self.env().take(i as int),
                    name@,
                ),
            decreases i,
        {
            i = i - 1;
            if str_eq(self.binds[i].name.as_str(), name) {
                proof {
                    assert(self.env().take((i + 1) as int).last() == self.env()[i as int]);
                }
                return Some(&self.binds[i]);
            }
            proof {
                assert(self.env().take((i + 1) as int).drop_last() =~= self.env().take(i as int));
            }
        }
        None
    }
}

} // verus!
