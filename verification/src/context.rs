//! The context: the interning authority that modules share.
//!
//! An interned value is a kind and a definition. The context keeps each
//! distinct value once and hands out its place as the handle. A value is
//! interned after the values it refers to, so it refers to earlier places
//! only. The context also hands out the handles of declarations, each once.
//!
//! A context has an identity, which the modules built from it record. Two
//! contexts never work together, so each is to be given an identity of its
//! own.

use crate::ir::{Const, DataInstForm, Def, DefView, Func, GlobalVar, Type, Use};
use vstd::prelude::*;

verus! {

/// The kind of an interned value.
#[derive(Clone, Copy, Debug, PartialEq, Eq, Structural)]
pub enum InternedKind {
    Type,
    Const,
    DataInstForm,
}

/// One interned value.
#[derive(Debug)]
pub struct Interned {
    pub kind: InternedKind,
    pub def: Def,
}

/// The interning authority.
#[derive(Debug)]
pub struct Context {
    id: u64,
    interned: Vec<Interned>,
    next_global_var: usize,
    next_func: usize,
}

/// The mathematical value of a [`Context`].
pub struct ContextView {
    /// The identity of the context.
    pub id: u64,
    /// The interned values, each at the place that is its handle.
    pub interned: Seq<(InternedKind, DefView)>,
    /// The handles of global variables below this one are handed out.
    pub next_global_var: usize,
    /// The handles of functions below this one are handed out.
    pub next_func: usize,
}

impl ContextView {
    /// Whether `h` is the handle of an interned value of the given kind.
    pub open spec fn has(self, kind: InternedKind, h: usize) -> bool {
        h < self.interned.len() && self.interned[h as int].0 == kind
    }

    /// Whether the reference is to a value that is interned here, or to a
    /// declaration whose handle was handed out here.
    pub open spec fn use_valid(self, u: Use) -> bool {
        match u {
            Use::Type(t) => self.has(InternedKind::Type, t.0),
            Use::Const(c) => self.has(InternedKind::Const, c.0),
            Use::DataInstForm(f) => self.has(InternedKind::DataInstForm, f.0),
            Use::GlobalVar(gv) => gv.0 < self.next_global_var,
            Use::Func(func) => func.0 < self.next_func,
        }
    }

    /// Whether every reference of the definition is valid here.
    pub open spec fn def_valid(self, def: DefView) -> bool {
        forall|k: int| 0 <= k < def.uses.len() ==> self.use_valid(#[trigger] def.uses[k])
    }

    /// Whether the reference is to a declaration, or to an interned value at
    /// a place below `bound`.
    pub open spec fn use_below(self, u: Use, bound: int) -> bool {
        match u.interned_index() {
            Some(h) => h < bound,
            None => true,
        }
    }

    /// Every interned value refers to valid values at earlier places only,
    /// no value is interned twice, and every place is a handle.
    pub open spec fn wf(self) -> bool {
        &&& forall|i: int, k: int|
            0 <= i < self.interned.len() && 0 <= k < self.interned[i].1.uses.len() ==> {
                &&& self.use_valid(#[trigger] self.interned[i].1.uses[k])
                &&& self.use_below(self.interned[i].1.uses[k], i)
            }
        &&& forall|i: int, j: int|
            0 <= i < j < self.interned.len() ==> self.interned[i] != self.interned[j]
        &&& self.interned.len() <= usize::MAX
    }

    /// Whether this context is `earlier` after more values were interned and
    /// more handles handed out.
    pub open spec fn extends(self, earlier: ContextView) -> bool {
        &&& earlier.id == self.id
        &&& earlier.interned.len() <= self.interned.len()
        &&& forall|i: int|
            0 <= i < earlier.interned.len() ==> self.interned[i] == earlier.interned[i]
        &&& earlier.next_global_var <= self.next_global_var
        &&& earlier.next_func <= self.next_func
    }
}

/// A reference that is valid in a context stays valid as the context grows.
pub proof fn lemma_use_valid_extends(cx: ContextView, later: ContextView, u: Use)
    requires
        later.extends(cx),
        cx.use_valid(u),
    ensures
        later.use_valid(u),
{
    match u.interned_index() {
        Some(h) => {
            assert(later.interned[h as int] == cx.interned[h as int]);
        },
        None => {},
    }
}

impl View for Context {
    type V = ContextView;

    closed spec fn view(&self) -> ContextView {
        ContextView {
            id: self.id,
            interned: Seq::new(
                self.interned@.len(),
                |i: int| (self.interned@[i].kind, self.interned@[i].def@),
            ),
            next_global_var: self.next_global_var,
            next_func: self.next_func,
        }
    }
}

impl Context {
    /// The context is well-formed.
    pub open spec fn wf(&self) -> bool {
        self@.wf()
    }

    /// A context of the given identity, without interned values or handles
    /// handed out.
    pub fn new(id: u64) -> (cx: Context)
        ensures
            cx.wf(),
            cx@.id == id,
            cx@.interned.len() == 0,
            cx@.next_global_var == 0,
            cx@.next_func == 0,
    {
        Context { id, interned: Vec::new(), next_global_var: 0, next_func: 0 }
    }

    /// The identity of the context.
    pub fn id(&self) -> (id: u64)
        ensures
            id == self@.id,
    {
        self.id
    }

    /// How many values are interned.
    pub fn interned_count(&self) -> (n: usize)
        ensures
            n == self@.interned.len(),
    {
        self.interned.len()
    }

    /// The kind of the interned value at `h`.
    pub fn kind_of(&self, h: usize) -> (kind: InternedKind)
        requires
            h < self@.interned.len(),
        ensures
            kind == self@.interned[h as int].0,
    {
        self.interned[h].kind
    }

    /// The definition of the interned value at `h`.
    pub fn def_of(&self, h: usize) -> (def: &Def)
        requires
            h < self@.interned.len(),
        ensures
            def@ == self@.interned[h as int].1,
    {
        &self.interned[h].def
    }

    /// The handle of the value of the given kind and definition: the handle
    /// it has already where the value is interned, a new one where it is not.
    pub fn intern(&mut self, kind: InternedKind, def: Def) -> (h: usize)
        requires
            old(self).wf(),
            old(self)@.def_valid(def@),
        ensures
            final(self).wf(),
            final(self)@.extends(old(self)@),
            final(self)@.id == old(self)@.id,
            final(self)@.next_global_var == old(self)@.next_global_var,
            final(self)@.next_func == old(self)@.next_func,
            h < final(self)@.interned.len(),
            final(self)@.interned[h as int] == (kind, def@),
            final(self)@.interned == old(self)@.interned || final(self)@.interned == old(
                self,
            )@.interned.push((kind, def@)),
            old(self)@.interned.contains((kind, def@)) ==> final(self)@.interned == old(
                self,
            )@.interned,
    {
        let mut i: usize = 0;
        while i < self.interned.len()
            invariant
                i <= self.interned@.len(),
                *self == *old(self),
                self@ == old(self)@,
                self.wf(),
                forall|j: int| 0 <= j < i ==> self@.interned[j] != (kind, def@),
            decreases self.interned@.len() - i,
        {
            if self.interned[i].kind == kind && self.interned[i].def.same(&def) {
                assert(self@.interned[i as int] == (kind, def@));
                return i;
            }
            i += 1;
        }
        let ghost before = self@;
        let h = self.interned.len();
        self.interned.push(Interned { kind, def });
        let grown = self.interned.len();
        proof {
            assert(self@.interned.len() == grown);
            assert(self@.interned =~= before.interned.push((kind, def@)));
            assert forall|a: int, k: int|
                0 <= a < self@.interned.len() && 0 <= k < self@.interned[a].1.uses.len() implies {
                &&& self@.use_valid(#[trigger] self@.interned[a].1.uses[k])
                &&& self@.use_below(self@.interned[a].1.uses[k], a)
            } by {
                if a < before.interned.len() {
                    assert(before.use_valid(before.interned[a].1.uses[k]));
                    assert(before.use_below(before.interned[a].1.uses[k], a));
                } else {
                    assert(before.use_valid(def@.uses[k]));
                }
            }
            if before.interned.contains((kind, def@)) {
                let j = choose|j: int|
                    0 <= j < before.interned.len() && before.interned[j] == (kind, def@);
                assert(false);
            }
        }
        h
    }

    /// The handle of the type with the given definition.
    pub fn intern_type(&mut self, def: Def) -> (t: Type)
        requires
            old(self).wf(),
            old(self)@.def_valid(def@),
        ensures
            final(self).wf(),
            final(self)@.extends(old(self)@),
            final(self)@.use_valid(Use::Type(t)),
            final(self)@.interned[t.0 as int].1 == def@,
    {
        Type(self.intern(InternedKind::Type, def))
    }

    /// The handle of the constant with the given definition.
    pub fn intern_const(&mut self, def: Def) -> (c: Const)
        requires
            old(self).wf(),
            old(self)@.def_valid(def@),
        ensures
            final(self).wf(),
            final(self)@.extends(old(self)@),
            final(self)@.use_valid(Use::Const(c)),
            final(self)@.interned[c.0 as int].1 == def@,
    {
        Const(self.intern(InternedKind::Const, def))
    }

    /// The handle of the instruction form with the given definition.
    pub fn intern_data_inst_form(&mut self, def: Def) -> (f: DataInstForm)
        requires
            old(self).wf(),
            old(self)@.def_valid(def@),
        ensures
            final(self).wf(),
            final(self)@.extends(old(self)@),
            final(self)@.use_valid(Use::DataInstForm(f)),
            final(self)@.interned[f.0 as int].1 == def@,
    {
        DataInstForm(self.intern(InternedKind::DataInstForm, def))
    }

    /// Whether the reference is valid in the context.
    pub fn use_is_valid(&self, u: Use) -> (valid: bool)
        ensures
            valid == self@.use_valid(u),
    {
        match u {
            Use::Type(t) => t.0 < self.interned.len() && self.interned[t.0].kind
                == InternedKind::Type,
            Use::Const(c) => c.0 < self.interned.len() && self.interned[c.0].kind
                == InternedKind::Const,
            Use::DataInstForm(f) => f.0 < self.interned.len() && self.interned[f.0].kind
                == InternedKind::DataInstForm,
            Use::GlobalVar(gv) => gv.0 < self.next_global_var,
            Use::Func(func) => func.0 < self.next_func,
        }
    }

    /// Whether every reference of the definition is valid in the context.
    pub fn def_is_valid(&self, def: &Def) -> (valid: bool)
        ensures
            valid == self@.def_valid(def@),
    {
        let mut k: usize = 0;
        while k < def.uses.len()
            invariant
                k <= def.uses@.len(),
                forall|j: int| 0 <= j < k ==> self@.use_valid(#[trigger] def@.uses[j]),
            decreases def.uses@.len() - k,
        {
            if !self.use_is_valid(def.uses[k]) {
                assert(!self@.use_valid(def@.uses[k as int]));
                return false;
            }
            k += 1;
        }
        true
    }

    /// Whether a handle for one more global variable can be handed out.
    pub fn has_global_var_room(&self) -> (r: bool)
        ensures
            r == (self@.next_global_var < usize::MAX),
    {
        self.next_global_var < usize::MAX
    }

    /// Whether a handle for one more function can be handed out.
    pub fn has_func_room(&self) -> (r: bool)
        ensures
            r == (self@.next_func < usize::MAX),
    {
        self.next_func < usize::MAX
    }

    /// How many handles of global variables are handed out.
    pub fn global_var_count(&self) -> (n: usize)
        ensures
            n == self@.next_global_var,
    {
        self.next_global_var
    }

    /// How many handles of functions are handed out.
    pub fn func_count(&self) -> (n: usize)
        ensures
            n == self@.next_func,
    {
        self.next_func
    }

    /// Hands out the handle of a new global variable.
    pub(crate) fn fresh_global_var(&mut self) -> (gv: GlobalVar)
        requires
            old(self)@.next_global_var < usize::MAX,
        ensures
            gv.0 == old(self)@.next_global_var,
            final(self)@ == (ContextView { next_global_var: (gv.0 + 1) as usize, ..old(self)@ }),
    {
        let gv = GlobalVar(self.next_global_var);
        self.next_global_var = self.next_global_var + 1;
        gv
    }

    /// Hands out the handle of a new function.
    pub(crate) fn fresh_func(&mut self) -> (func: Func)
        requires
            old(self)@.next_func < usize::MAX,
        ensures
            func.0 == old(self)@.next_func,
            final(self)@ == (ContextView { next_func: (func.0 + 1) as usize, ..old(self)@ }),
    {
        let func = Func(self.next_func);
        self.next_func = self.next_func + 1;
        func
    }
}

} // verus!
