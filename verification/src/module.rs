//! Modules: a dialect, a list of top-level items, an export map and the
//! declarations of global variables and functions. A module is built from a
//! context and records its identity.

use crate::attrs::{AttrSet, AttrView};
use crate::context::{Context, ContextView};
use crate::dialect::{DialectView, ModuleDialect};
use crate::ir::{Def, DefView, Exportee, Func, GlobalVar};
use crate::spv::Imm;
use crate::tables::{id_map_get, id_map_insert, id_map_keys, id_map_len, id_map_new};
use rustc_hash::FxHashMap;
use vstd::prelude::*;

verus! {

broadcast use vstd::std_specs::hash::group_hash_axioms;

/// One input of a top-level instruction.
#[derive(Debug)]
pub enum MiscInput {
    /// An immediate.
    SpvImm(Imm),
    /// A reference to an ID of which lowering keeps no definition.
    SpvUntrackedId(u32),
    /// A reference to an imported extended instruction set, by its name.
    SpvExtInstImport(String),
    /// A reference to a debug string, by its contents.
    SpvDebugString(String),
}

/// The mathematical value of a [`MiscInput`].
pub enum MiscInputView {
    SpvImm(Imm),
    SpvUntrackedId(u32),
    SpvExtInstImport(Seq<char>),
    SpvDebugString(Seq<char>),
}

impl View for MiscInput {
    type V = MiscInputView;

    open spec fn view(&self) -> MiscInputView {
        match *self {
            MiscInput::SpvImm(imm) => MiscInputView::SpvImm(imm),
            MiscInput::SpvUntrackedId(id) => MiscInputView::SpvUntrackedId(id),
            MiscInput::SpvExtInstImport(name) => MiscInputView::SpvExtInstImport(name@),
            MiscInput::SpvDebugString(s) => MiscInputView::SpvDebugString(s@),
        }
    }
}

/// What a top-level instruction is.
#[derive(Clone, Copy, Debug, PartialEq, Eq, Structural)]
pub enum MiscKind {
    SpvInst { opcode: u16 },
}

/// What a top-level instruction defines.
#[derive(Clone, Copy, Debug, PartialEq, Eq, Structural)]
pub enum MiscOutput {
    SpvResult { result_type_id: Option<u32>, result_id: u32 },
}

/// A top-level instruction that lowering keeps as it found it.
#[derive(Debug)]
pub struct Misc {
    pub kind: MiscKind,
    pub output: Option<MiscOutput>,
    pub inputs: Vec<MiscInput>,
    pub attrs: Option<AttrSet>,
}

/// The mathematical value of a [`Misc`].
pub struct MiscView {
    pub kind: MiscKind,
    pub output: Option<MiscOutput>,
    pub inputs: Seq<MiscInputView>,
    pub attrs: Option<Set<AttrView>>,
}

impl View for Misc {
    type V = MiscView;

    open spec fn view(&self) -> MiscView {
        MiscView {
            kind: self.kind,
            output: self.output,
            inputs: Seq::new(self.inputs@.len(), |i: int| self.inputs@[i]@),
            attrs: match self.attrs {
                Some(set) => Some(set@),
                None => None,
            },
        }
    }
}

impl Misc {
    /// The attribute set, if there is one, holds no value twice.
    pub open spec fn wf(&self) -> bool {
        match self.attrs {
            Some(set) => set.wf(),
            None => true,
        }
    }
}

/// One item of a module's top level.
#[derive(Debug)]
pub enum TopLevel {
    Misc(Misc),
}

impl View for TopLevel {
    type V = MiscView;

    open spec fn view(&self) -> MiscView {
        match *self {
            TopLevel::Misc(misc) => misc@,
        }
    }
}

impl TopLevel {
    /// The item is well-formed.
    pub open spec fn wf(&self) -> bool {
        match *self {
            TopLevel::Misc(misc) => misc.wf(),
        }
    }
}

/// One entry of an export map.
#[derive(Debug)]
pub struct Export {
    pub key: String,
    pub exportee: Exportee,
}

/// A module.
#[derive(Debug)]
pub struct Module {
    pub(crate) context: u64,
    pub dialect: ModuleDialect,
    pub top_level: Vec<TopLevel>,
    pub(crate) exports: Vec<Export>,
    pub(crate) global_vars: FxHashMap<usize, Def>,
    pub(crate) funcs: FxHashMap<usize, Def>,
}

/// The mathematical value of a [`Module`].
pub struct ModuleView {
    /// The identity of the context that the module was built from.
    pub context: u64,
    pub dialect: DialectView,
    pub top_level: Seq<MiscView>,
    /// The exports, in the order they were registered: key and exportee.
    pub exports: Seq<(Seq<char>, Exportee)>,
    /// The global variable declarations, by handle.
    pub global_vars: Map<usize, DefView>,
    /// The function declarations, by handle.
    pub funcs: Map<usize, DefView>,
}

impl View for Module {
    type V = ModuleView;

    closed spec fn view(&self) -> ModuleView {
        ModuleView {
            context: self.context,
            dialect: self.dialect@,
            top_level: Seq::new(self.top_level@.len(), |i: int| self.top_level@[i]@),
            exports: Seq::new(
                self.exports@.len(),
                |i: int| (self.exports@[i].key@, self.exports@[i].exportee),
            ),
            global_vars: Map::new(
                |h: usize| self.global_vars@.contains_key(h),
                |h: usize| self.global_vars@[h]@,
            ),
            funcs: Map::new(|h: usize| self.funcs@.contains_key(h), |h: usize| self.funcs@[h]@),
        }
    }
}

impl ModuleView {
    /// The keys of the exports, in the order they were registered.
    pub open spec fn export_keys(self) -> Seq<Seq<char>> {
        Seq::new(self.exports.len(), |i: int| self.exports[i].0)
    }

    /// Whether the module is one of the context: it was built from it, the
    /// handles of its declarations were handed out there, and every reference
    /// that a declaration or an export holds is valid there.
    pub open spec fn valid_in(self, cx: ContextView) -> bool {
        &&& self.context == cx.id
        &&& forall|g: usize| #[trigger]
            self.global_vars.contains_key(g) ==> g < cx.next_global_var && cx.def_valid(
                self.global_vars[g],
            )
        &&& forall|f: usize| #[trigger]
            self.funcs.contains_key(f) ==> f < cx.next_func && cx.def_valid(self.funcs[f])
        &&& forall|k: int|
            0 <= k < self.exports.len() ==> cx.use_valid(
                (#[trigger] self.exports[k]).1.spec_as_use(),
            )
    }
}

impl Module {
    /// The dialect and the top-level items are well-formed.
    pub closed spec fn parts_wf(&self) -> bool {
        &&& self.dialect.wf()
        &&& forall|i: int| 0 <= i < self.top_level@.len() ==> (#[trigger] self.top_level@[i]).wf()
    }

    /// The parts are well-formed, no export key occurs twice, and the
    /// declarations are finitely many.
    pub open spec fn wf(&self) -> bool {
        &&& self.parts_wf()
        &&& self@.export_keys().no_duplicates()
        &&& self@.global_vars.dom().finite()
        &&& self@.funcs.dom().finite()
    }

    /// The module of the context `cx` with the given dialect and top level,
    /// without exports or declarations.
    pub fn new(cx: &Context, dialect: ModuleDialect, top_level: Vec<TopLevel>) -> (module: Module)
        requires
            dialect.wf(),
            forall|i: int| 0 <= i < top_level@.len() ==> (#[trigger] top_level@[i]).wf(),
        ensures
            module.wf(),
            module@.valid_in(cx@),
            module@ == (ModuleView {
                context: cx@.id,
                dialect: dialect@,
                top_level: Seq::new(top_level@.len(), |i: int| top_level@[i]@),
                exports: Seq::empty(),
                global_vars: Map::empty(),
                funcs: Map::empty(),
            }),
    {
        let module = Module {
            context: cx.id(),
            dialect,
            top_level,
            exports: Vec::new(),
            global_vars: id_map_new(),
            funcs: id_map_new(),
        };
        assert(module@.exports =~= Seq::empty());
        assert(module@.global_vars =~= Map::empty());
        assert(module@.funcs =~= Map::empty());
        assert(module@.top_level =~= Seq::new(top_level@.len(), |i: int| top_level@[i]@));
        module
    }

    /// The dialect of the module.
    pub fn dialect(&self) -> (dialect: &ModuleDialect)
        ensures
            dialect@ == self@.dialect,
            self.wf() ==> dialect.wf(),
    {
        &self.dialect
    }

    /// How many exports the module has.
    pub fn export_count(&self) -> (n: usize)
        ensures
            n == self@.exports.len(),
    {
        self.exports.len()
    }

    /// What the key `key` exports, if the module has this key.
    pub fn exportee(&self, key: &String) -> (found: Option<Exportee>)
        ensures
            match found {
                Some(e) => self@.exports.contains((key@, e)),
                None => !self@.export_keys().contains(key@),
            },
    {
        let mut i: usize = 0;
        while i < self.exports.len()
            invariant
                i <= self.exports@.len(),
                forall|j: int| 0 <= j < i ==> self@.export_keys()[j] != key@,
            decreases self.exports@.len() - i,
        {
            if self.exports[i].key == *key {
                assert(self@.exports[i as int] == (key@, self.exports@[i as int].exportee));
                return Some(self.exports[i].exportee);
            }
            i += 1;
        }
        None
    }

    /// The declaration of the global variable `gv`, if the module has it.
    pub fn global_var(&self, gv: GlobalVar) -> (found: Option<&Def>)
        ensures
            match found {
                Some(def) => self@.global_vars.contains_key(gv.0) && self@.global_vars[gv.0]
                    == def@,
                None => !self@.global_vars.contains_key(gv.0),
            },
    {
        id_map_get(&self.global_vars, gv.0)
    }

    /// The declaration of the function `func`, if the module has it.
    pub fn func(&self, func: Func) -> (found: Option<&Def>)
        ensures
            match found {
                Some(def) => self@.funcs.contains_key(func.0) && self@.funcs[func.0] == def@,
                None => !self@.funcs.contains_key(func.0),
            },
    {
        id_map_get(&self.funcs, func.0)
    }

    /// Declares a global variable with the given definition, under a new
    /// handle of the context.
    pub fn define_global_var(&mut self, cx: &mut Context, def: Def) -> (gv: GlobalVar)
        requires
            old(self).wf(),
            old(self)@.valid_in(old(cx)@),
            old(cx)@.def_valid(def@),
            old(cx)@.next_global_var < usize::MAX,
        ensures
            final(self).wf(),
            final(self)@.valid_in(final(cx)@),
            gv.0 == old(cx)@.next_global_var,
            final(cx)@ == (ContextView { next_global_var: (gv.0 + 1) as usize, ..old(cx)@ }),
            final(self)@ == (ModuleView {
                global_vars: old(self)@.global_vars.insert(gv.0, def@),
                ..old(self)@
            }),
    {
        let gv = cx.fresh_global_var();
        id_map_insert(&mut self.global_vars, gv.0, def);
        proof {
            assert(self@.global_vars =~= old(self)@.global_vars.insert(gv.0, def@));
            assert(self@.funcs =~= old(self)@.funcs);
            assert(self@.exports =~= old(self)@.exports);
            assert(self@.top_level =~= old(self)@.top_level);
            assert(self@.export_keys() =~= old(self)@.export_keys());
            assert forall|g: usize| #[trigger] self@.global_vars.contains_key(g) implies g
                < cx@.next_global_var && cx@.def_valid(self@.global_vars[g]) by {
                if g != gv.0 {
                    assert(old(cx)@.def_valid(old(self)@.global_vars[g]));
                }
            }
            assert forall|f: usize| #[trigger] self@.funcs.contains_key(f) implies f
                < cx@.next_func && cx@.def_valid(self@.funcs[f]) by {
                assert(old(cx)@.def_valid(old(self)@.funcs[f]));
            }
            assert forall|k: int| 0 <= k < self@.exports.len() implies cx@.use_valid(
                (#[trigger] self@.exports[k]).1.spec_as_use(),
            ) by {
                assert(old(cx)@.use_valid(old(self)@.exports[k].1.spec_as_use()));
            }
        }
        gv
    }

    /// Declares a function with the given definition, under a new handle of
    /// the context.
    pub fn define_func(&mut self, cx: &mut Context, def: Def) -> (func: Func)
        requires
            old(self).wf(),
            old(self)@.valid_in(old(cx)@),
            old(cx)@.def_valid(def@),
            old(cx)@.next_func < usize::MAX,
        ensures
            final(self).wf(),
            final(self)@.valid_in(final(cx)@),
            func.0 == old(cx)@.next_func,
            final(cx)@ == (ContextView { next_func: (func.0 + 1) as usize, ..old(cx)@ }),
            final(self)@ == (ModuleView {
                funcs: old(self)@.funcs.insert(func.0, def@),
                ..old(self)@
            }),
    {
        let func = cx.fresh_func();
        id_map_insert(&mut self.funcs, func.0, def);
        proof {
            assert(self@.funcs =~= old(self)@.funcs.insert(func.0, def@));
            assert(self@.global_vars =~= old(self)@.global_vars);
            assert(self@.exports =~= old(self)@.exports);
            assert(self@.top_level =~= old(self)@.top_level);
            assert(self@.export_keys() =~= old(self)@.export_keys());
            assert forall|f: usize| #[trigger] self@.funcs.contains_key(f) implies f
                < cx@.next_func && cx@.def_valid(self@.funcs[f]) by {
                if f != func.0 {
                    assert(old(cx)@.def_valid(old(self)@.funcs[f]));
                }
            }
            assert forall|g: usize| #[trigger] self@.global_vars.contains_key(g) implies g
                < cx@.next_global_var && cx@.def_valid(self@.global_vars[g]) by {
                assert(old(cx)@.def_valid(old(self)@.global_vars[g]));
            }
            assert forall|k: int| 0 <= k < self@.exports.len() implies cx@.use_valid(
                (#[trigger] self@.exports[k]).1.spec_as_use(),
            ) by {
                assert(old(cx)@.use_valid(old(self)@.exports[k].1.spec_as_use()));
            }
        }
        func
    }

    /// Registers an export under `key`, unless the module has this key
    /// already. Returns whether it was registered.
    pub fn export(&mut self, key: String, exportee: Exportee) -> (added: bool)
        requires
            old(self).wf(),
        ensures
            final(self).wf(),
            added == !old(self)@.export_keys().contains(key@),
            added ==> final(self)@ == (ModuleView {
                exports: old(self)@.exports.push((key@, exportee)),
                ..old(self)@
            }),
            !added ==> final(self)@ == old(self)@,
    {
        let mut i: usize = 0;
        while i < self.exports.len()
            invariant
                i <= self.exports@.len(),
                *self == *old(self),
                self.wf(),
                forall|j: int| 0 <= j < i ==> self@.export_keys()[j] != key@,
            decreases self.exports@.len() - i,
        {
            if self.exports[i].key == key {
                assert(self@.export_keys()[i as int] == key@);
                return false;
            }
            i += 1;
        }
        self.exports.push(Export { key, exportee });
        proof {
            assert(self@.exports =~= old(self)@.exports.push((key@, exportee)));
            assert(self@.export_keys() =~= old(self)@.export_keys().push(key@));
            assert(self@.global_vars =~= old(self)@.global_vars);
            assert(self@.funcs =~= old(self)@.funcs);
            assert(self@.top_level =~= old(self)@.top_level);
        }
        true
    }

    /// How many global variables the module declares.
    pub fn global_var_count(&self) -> (n: usize)
        ensures
            n == self@.global_vars.dom().len(),
    {
        assert(self@.global_vars.dom() =~= self.global_vars@.dom());
        id_map_len(&self.global_vars)
    }

    /// How many functions the module declares.
    pub fn func_count(&self) -> (n: usize)
        ensures
            n == self@.funcs.dom().len(),
    {
        assert(self@.funcs.dom() =~= self.funcs@.dom());
        id_map_len(&self.funcs)
    }

    /// The identity of the context that the module was built from.
    pub fn context_id(&self) -> (id: u64)
        ensures
            id == self@.context,
    {
        self.context
    }

    /// Whether the module is one of the context.
    pub fn is_valid_in(&self, cx: &Context) -> (valid: bool)
        ensures
            valid == self@.valid_in(cx@),
    {
        if self.context != cx.id() {
            return false;
        }
        let global_vars = id_map_keys(&self.global_vars);
        let mut i: usize = 0;
        while i < global_vars.len()
            invariant
                i <= global_vars@.len(),
                global_vars@.to_set() == self.global_vars@.dom(),
                forall|j: int|
                    0 <= j < i ==> (#[trigger] global_vars@[j]) < cx@.next_global_var
                        && cx@.def_valid(self@.global_vars[global_vars@[j]]),
            decreases global_vars@.len() - i,
        {
            let gv = global_vars[i];
            assert(global_vars@.to_set().contains(global_vars@[i as int]));
            let def = id_map_get(&self.global_vars, gv).unwrap();
            if gv >= cx.global_var_count() || !cx.def_is_valid(def) {
                assert(self@.global_vars.contains_key(gv));
                return false;
            }
            i += 1;
        }
        let funcs = id_map_keys(&self.funcs);
        let mut i: usize = 0;
        while i < funcs.len()
            invariant
                i <= funcs@.len(),
                funcs@.to_set() == self.funcs@.dom(),
                forall|j: int|
                    0 <= j < i ==> (#[trigger] funcs@[j]) < cx@.next_func && cx@.def_valid(
                        self@.funcs[funcs@[j]],
                    ),
            decreases funcs@.len() - i,
        {
            let func = funcs[i];
            assert(funcs@.to_set().contains(funcs@[i as int]));
            let def = id_map_get(&self.funcs, func).unwrap();
            if func >= cx.func_count() || !cx.def_is_valid(def) {
                assert(self@.funcs.contains_key(func));
                return false;
            }
            i += 1;
        }
        let mut k: usize = 0;
        while k < self.exports.len()
            invariant
                k <= self.exports@.len(),
                forall|j: int|
                    0 <= j < k ==> cx@.use_valid((#[trigger] self@.exports[j]).1.spec_as_use()),
            decreases self.exports@.len() - k,
        {
            if !cx.use_is_valid(self.exports[k].exportee.as_use()) {
                assert(!cx@.use_valid(self@.exports[k as int].1.spec_as_use()));
                return false;
            }
            k += 1;
        }
        proof {
            assert forall|g: usize| #[trigger] self@.global_vars.contains_key(g) implies g
                < cx@.next_global_var && cx@.def_valid(self@.global_vars[g]) by {
                assert(global_vars@.to_set().contains(g));
                let j = choose|j: int| 0 <= j < global_vars@.len() && global_vars@[j] == g;
                assert(global_vars@[j] < cx@.next_global_var);
            }
            assert forall|f: usize| #[trigger] self@.funcs.contains_key(f) implies f
                < cx@.next_func && cx@.def_valid(self@.funcs[f]) by {
                assert(funcs@.to_set().contains(f));
                let j = choose|j: int| 0 <= j < funcs@.len() && funcs@[j] == f;
                assert(funcs@[j] < cx@.next_func);
            }
        }
        true
    }

    /// The key of the export at position `i`.
    pub fn export_key(&self, i: usize) -> (key: &String)
        requires
            i < self@.exports.len(),
        ensures
            key@ == self@.exports[i as int].0,
    {
        &self.exports[i].key
    }

    /// What the export at position `i` names.
    pub fn export_target(&self, i: usize) -> (exportee: Exportee)
        requires
            i < self@.exports.len(),
        ensures
            exportee == self@.exports[i as int].1,
    {
        self.exports[i].exportee
    }

    /// Makes the export at position `i` name `exportee`.
    pub(crate) fn set_export_target(&mut self, i: usize, exportee: Exportee)
        requires
            old(self).wf(),
            i < old(self)@.exports.len(),
        ensures
            final(self).wf(),
            final(self)@ == (ModuleView {
                exports: old(self)@.exports.update(
                    i as int,
                    (old(self)@.exports[i as int].0, exportee),
                ),
                ..old(self)@
            }),
    {
        let key = self.exports[i].key.clone();
        self.exports.set(i, Export { key, exportee });
        proof {
            assert(self@.exports =~= old(self)@.exports.update(
                i as int,
                (old(self)@.exports[i as int].0, exportee),
            ));
            assert(self@.export_keys() =~= old(self)@.export_keys());
            assert(self@.global_vars =~= old(self)@.global_vars);
            assert(self@.funcs =~= old(self)@.funcs);
            assert(self@.top_level =~= old(self)@.top_level);
        }
    }

    /// Replaces the definition of the global variable `gv`, which the module
    /// has.
    pub fn set_global_var(&mut self, gv: GlobalVar, def: Def)
        requires
            old(self).wf(),
            old(self)@.global_vars.contains_key(gv.0),
        ensures
            final(self).wf(),
            final(self)@ == (ModuleView {
                global_vars: old(self)@.global_vars.insert(gv.0, def@),
                ..old(self)@
            }),
    {
        id_map_insert(&mut self.global_vars, gv.0, def);
        proof {
            assert(self@.global_vars =~= old(self)@.global_vars.insert(gv.0, def@));
            assert(self@.funcs =~= old(self)@.funcs);
            assert(self@.exports =~= old(self)@.exports);
            assert(self@.top_level =~= old(self)@.top_level);
            assert(self@.export_keys() =~= old(self)@.export_keys());
        }
    }

    /// Replaces the definition of the function `func`, which the module has.
    pub fn set_func(&mut self, func: Func, def: Def)
        requires
            old(self).wf(),
            old(self)@.funcs.contains_key(func.0),
        ensures
            final(self).wf(),
            final(self)@ == (ModuleView {
                funcs: old(self)@.funcs.insert(func.0, def@),
                ..old(self)@
            }),
    {
        id_map_insert(&mut self.funcs, func.0, def);
        proof {
            assert(self@.funcs =~= old(self)@.funcs.insert(func.0, def@));
            assert(self@.global_vars =~= old(self)@.global_vars);
            assert(self@.exports =~= old(self)@.exports);
            assert(self@.top_level =~= old(self)@.top_level);
            assert(self@.export_keys() =~= old(self)@.export_keys());
        }
    }

    /// Replaces the dialect of the module.
    pub(crate) fn set_dialect(&mut self, dialect: ModuleDialect)
        requires
            old(self).wf(),
            dialect.wf(),
        ensures
            final(self).wf(),
            final(self)@ == (ModuleView { dialect: dialect@, ..old(self)@ }),
    {
        self.dialect = dialect;
        proof {
            assert(self@.funcs =~= old(self)@.funcs);
            assert(self@.global_vars =~= old(self)@.global_vars);
            assert(self@.exports =~= old(self)@.exports);
            assert(self@.top_level =~= old(self)@.top_level);
            assert(self@.export_keys() =~= old(self)@.export_keys());
        }
    }
}

} // verus!
