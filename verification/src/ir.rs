//! Handles and definitions of the IR.
//!
//! Types, constants and instruction forms are interned: one handle for each
//! distinct value. Global variables and functions are declarations with an
//! identity of their own. A definition of any of them is some data that
//! merging never looks into, and the references it holds to others.

use vstd::prelude::*;

verus! {

/// Handle of an interned type.
#[derive(Clone, Copy, Debug, PartialEq, Eq, Structural)]
pub struct Type(pub usize);

/// Handle of an interned constant.
#[derive(Clone, Copy, Debug, PartialEq, Eq, Structural)]
pub struct Const(pub usize);

/// Handle of an interned instruction form.
#[derive(Clone, Copy, Debug, PartialEq, Eq, Structural)]
pub struct DataInstForm(pub usize);

/// Handle of a global variable declaration.
#[derive(Clone, Copy, Debug, PartialEq, Eq, Structural)]
pub struct GlobalVar(pub usize);

/// Handle of a function declaration.
#[derive(Clone, Copy, Debug, PartialEq, Eq, Structural)]
pub struct Func(pub usize);

/// One reference held by a definition.
#[derive(Clone, Copy, Debug, PartialEq, Eq, Structural)]
pub enum Use {
    Type(Type),
    Const(Const),
    DataInstForm(DataInstForm),
    GlobalVar(GlobalVar),
    Func(Func),
}

impl Use {
    /// The place of an interned value in its context; `None` for a
    /// declaration.
    pub open spec fn interned_index(self) -> Option<usize> {
        match self {
            Use::Type(t) => Some(t.0),
            Use::Const(c) => Some(c.0),
            Use::DataInstForm(f) => Some(f.0),
            Use::GlobalVar(_) => None,
            Use::Func(_) => None,
        }
    }
}

/// What an export names.
#[derive(Clone, Copy, Debug, PartialEq, Eq, Structural)]
pub enum Exportee {
    GlobalVar(GlobalVar),
    Func(Func),
}

impl Exportee {
    /// The export, seen as a reference.
    pub open spec fn spec_as_use(self) -> Use {
        match self {
            Exportee::GlobalVar(gv) => Use::GlobalVar(gv),
            Exportee::Func(func) => Use::Func(func),
        }
    }

    /// The export, seen as a reference.
    pub fn as_use(self) -> (u: Use)
        ensures
            u == self.spec_as_use(),
    {
        match self {
            Exportee::GlobalVar(gv) => Use::GlobalVar(gv),
            Exportee::Func(func) => Use::Func(func),
        }
    }
}

/// A definition: opaque data, and the references it holds, in order.
#[derive(Debug)]
pub struct Def {
    pub data: Vec<u32>,
    pub uses: Vec<Use>,
}

/// The mathematical value of a [`Def`].
pub struct DefView {
    pub data: Seq<u32>,
    pub uses: Seq<Use>,
}

impl View for Def {
    type V = DefView;

    open spec fn view(&self) -> DefView {
        DefView { data: self.data@, uses: self.uses@ }
    }
}

impl Def {
    /// A copy of the definition.
    pub fn duplicate(&self) -> (copy: Def)
        ensures
            copy@ == self@,
    {
        Def { data: self.data.clone(), uses: self.uses.clone() }
    }

    /// Whether two definitions have the same value.
    pub fn same(&self, other: &Def) -> (r: bool)
        ensures
            r == (self@ == other@),
    {
        if self.data.len() != other.data.len() || self.uses.len() != other.uses.len() {
            return false;
        }
        let mut i: usize = 0;
        while i < self.data.len()
            invariant
                self.data@.len() == other.data@.len(),
                i <= self.data@.len(),
                forall|j: int| 0 <= j < i ==> self.data@[j] == other.data@[j],
            decreases self.data@.len() - i,
        {
            if self.data[i] != other.data[i] {
                return false;
            }
            i += 1;
        }
        let mut k: usize = 0;
        while k < self.uses.len()
            invariant
                self.uses@.len() == other.uses@.len(),
                k <= self.uses@.len(),
                forall|j: int| 0 <= j < k ==> self.uses@[j] == other.uses@[j],
            decreases self.uses@.len() - k,
        {
            if self.uses[k] != other.uses[k] {
                return false;
            }
            k += 1;
        }
        assert(self.data@ =~= other.data@);
        assert(self.uses@ =~= other.uses@);
        true
    }
}

} // verus!
