//! The dependency closure of a module's exports: the declarations that have
//! to be copied when the module is merged into another.

use crate::context::{Context, ContextView};
use crate::ir::{Const, DataInstForm, Def, Func, GlobalVar, Type, Use};
use crate::module::{Module, ModuleView};
use crate::reach::{
    closed_in, is_root, lemma_closed_set_holds_reachable, lemma_root_reachable,
    lemma_successor_reachable, lemma_successor_valid, reachable, successors,
};
use crate::tables::{id_set_insert, id_set_new};
use rustc_hash::FxHashSet;
use vstd::prelude::*;
use vstd::set_lib::lemma_len_subset;

verus! {

broadcast use vstd::std_specs::hash::group_hash_axioms;

/// The handles below `n`.
pub open spec fn below(n: nat) -> Set<usize> {
    Set::new(|h: usize| (h as nat) < n)
}

pub proof fn lemma_below(n: nat)
    requires
        n <= usize::MAX + 1,
    ensures
        below(n).finite(),
        below(n).len() == n,
    decreases n,
{
    if n == 0 {
        assert(below(0) =~= Set::<usize>::empty());
    } else {
        lemma_below((n - 1) as nat);
        assert(below(n) =~= below((n - 1) as nat).insert((n - 1) as usize));
    }
}

/// Whether every item of `seen` that is not in `open` has all it refers to
/// in `seen`.
pub open spec fn closed_except(
    cx: ContextView,
    m: ModuleView,
    seen: Set<Use>,
    open: Set<Use>,
) -> bool {
    forall|a: Use, b: Use|
        seen.contains(a) && !open.contains(a) && #[trigger] successors(cx, m, a).contains(b)
            ==> seen.contains(b)
}

/// Whether the module has the declaration that `u` refers to. An interned
/// value is not the module's to have.
pub open spec fn resident(m: ModuleView, u: Use) -> bool {
    match u {
        Use::GlobalVar(gv) => m.global_vars.contains_key(gv.0),
        Use::Func(func) => m.funcs.contains_key(func.0),
        _ => true,
    }
}

/// Collects what the exports of a module reach.
struct CopyCollector<'a> {
    cx: &'a Context,
    src_module: &'a Module,
    seen_types: FxHashSet<usize>,
    seen_consts: FxHashSet<usize>,
    seen_data_inst_forms: FxHashSet<usize>,
    seen_global_vars: FxHashSet<usize>,
    seen_funcs: FxHashSet<usize>,
    /// The global variables seen, in the order they were first met.
    found_global_vars: Vec<usize>,
    /// The functions seen, in the order they were first met.
    found_funcs: Vec<usize>,
    /// Whether a reference was met to a declaration that the module lacks.
    missing: bool,
}

impl<'a> CopyCollector<'a> {
    /// What was met so far.
    pub closed spec fn seen(&self) -> Set<Use> {
        Set::new(
            |u: Use|
                match u {
                    Use::Type(t) => self.seen_types@.contains(t.0),
                    Use::Const(c) => self.seen_consts@.contains(c.0),
                    Use::DataInstForm(f) => self.seen_data_inst_forms@.contains(f.0),
                    Use::GlobalVar(gv) => self.seen_global_vars@.contains(gv.0),
                    Use::Func(func) => self.seen_funcs@.contains(func.0),
                },
        )
    }

    /// The context that the module is of.
    pub closed spec fn context(&self) -> ContextView {
        self.cx@
    }

    /// The module whose exports are followed.
    pub closed spec fn module(&self) -> ModuleView {
        self.src_module@
    }

    /// How much there is left to meet, at most.
    pub closed spec fn unseen(&self) -> int {
        3 * self.cx@.interned.len() + self.src_module@.global_vars.dom().len()
            + self.src_module@.funcs.dom().len() - self.seen_types@.len()
            - self.seen_consts@.len() - self.seen_data_inst_forms@.len()
            - self.seen_global_vars@.len() - self.seen_funcs@.len()
    }

    /// Whether a reference was met to a declaration that the module lacks.
    pub closed spec fn failed(&self) -> bool {
        self.missing
    }

    /// The global variables noted for copying, in the order they were met.
    pub closed spec fn noted_global_vars(&self) -> Seq<usize> {
        self.found_global_vars@
    }

    /// The functions noted for copying, in the order they were met.
    pub closed spec fn noted_funcs(&self) -> Seq<usize> {
        self.found_funcs@
    }

    /// The module is a module of the context, all that was met is reached by
    /// the exports and there, the lists hold what the sets hold, and a
    /// declaration was found missing only if the module is not closed.
    pub closed spec fn inv(&self) -> bool {
        &&& self.cx.wf()
        &&& self.src_module.wf()
        &&& self.src_module@.valid_in(self.cx@)
        &&& self.missing ==> !closed_in(self.cx@, self.src_module@)
        &&& self.seen_types@.finite()
        &&& self.seen_consts@.finite()
        &&& self.seen_data_inst_forms@.finite()
        &&& self.seen_global_vars@.finite()
        &&& self.seen_funcs@.finite()
        &&& forall|u: Use| #[trigger]
            self.seen().contains(u) ==> reachable(self.cx@, self.src_module@, u)
                && self.cx@.use_valid(u) && resident(self.src_module@, u)
        &&& self.found_global_vars@.no_duplicates()
        &&& self.found_global_vars@.to_set() == self.seen_global_vars@
        &&& self.found_funcs@.no_duplicates()
        &&& self.found_funcs@.to_set() == self.seen_funcs@
    }

    proof fn lemma_bounds(&self)
        requires
            self.inv(),
        ensures
            self.seen_types@.len() <= self.cx@.interned.len(),
            self.seen_consts@.len() <= self.cx@.interned.len(),
            self.seen_data_inst_forms@.len() <= self.cx@.interned.len(),
            self.seen_global_vars@.len() <= self.src_module@.global_vars.dom().len(),
            self.seen_funcs@.len() <= self.src_module@.funcs.dom().len(),
            self.unseen() >= 0,
    {
        let n = self.cx@.interned.len();
        lemma_below(n);
        assert forall|h: usize| self.seen_types@.contains(h) implies below(n).contains(h) by {
            assert(self.seen().contains(Use::Type(Type(h))));
        }
        assert forall|h: usize| self.seen_consts@.contains(h) implies below(n).contains(h) by {
            assert(self.seen().contains(Use::Const(Const(h))));
        }
        assert forall|h: usize| self.seen_data_inst_forms@.contains(h) implies below(
            n,
        ).contains(h) by {
            assert(self.seen().contains(Use::DataInstForm(DataInstForm(h))));
        }
        let global_vars = self.src_module@.global_vars.dom();
        let funcs = self.src_module@.funcs.dom();
        assert forall|h: usize| self.seen_global_vars@.contains(h) implies global_vars.contains(
            h,
        ) by {
            assert(self.seen().contains(Use::GlobalVar(GlobalVar(h))));
            assert(reachable(self.cx@, self.src_module@, Use::GlobalVar(GlobalVar(h))));
        }
        assert forall|h: usize| self.seen_funcs@.contains(h) implies funcs.contains(h) by {
            assert(self.seen().contains(Use::Func(Func(h))));
            assert(reachable(self.cx@, self.src_module@, Use::Func(Func(h))));
        }
        lemma_len_subset(self.seen_types@, below(n));
        lemma_len_subset(self.seen_consts@, below(n));
        lemma_len_subset(self.seen_data_inst_forms@, below(n));
        lemma_len_subset(self.seen_global_vars@, self.src_module@.global_vars.dom());
        lemma_len_subset(self.seen_funcs@, self.src_module@.funcs.dom());
    }

    /// A collector that has met nothing yet.
    fn new(cx: &'a Context, src_module: &'a Module) -> (collector: CopyCollector<'a>)
        requires
            cx.wf(),
            src_module.wf(),
            src_module@.valid_in(cx@),
        ensures
            collector.inv(),
            collector.context() == cx@,
            collector.module() == src_module@,
            collector.seen() == Set::<Use>::empty(),
            !collector.failed(),
    {
        let collector = CopyCollector {
            cx,
            src_module,
            seen_types: id_set_new(),
            seen_consts: id_set_new(),
            seen_data_inst_forms: id_set_new(),
            seen_global_vars: id_set_new(),
            seen_funcs: id_set_new(),
            found_global_vars: Vec::new(),
            found_funcs: Vec::new(),
            missing: false,
        };
        proof {
            assert(collector.seen() =~= Set::<Use>::empty());
            assert(collector.found_global_vars@.to_set() =~= Set::<usize>::empty());
            assert(collector.found_funcs@.to_set() =~= Set::<usize>::empty());
        }
        collector
    }

    /// Marks `u` as met. Returns whether it was not met before.
    fn mark(&mut self, u: Use) -> (fresh: bool)
        requires
            old(self).inv(),
            reachable(old(self).context(), old(self).module(), u),
            old(self).context().use_valid(u),
            resident(old(self).module(), u),
        ensures
            final(self).inv(),
            final(self).context() == old(self).context(),
            final(self).module() == old(self).module(),
            final(self).failed() == old(self).failed(),
            final(self).seen() == old(self).seen().insert(u),
            fresh == !old(self).seen().contains(u),
            final(self).noted_global_vars() == (match u {
                Use::GlobalVar(gv) if fresh => old(self).noted_global_vars().push(gv.0),
                _ => old(self).noted_global_vars(),
            }),
            final(self).noted_funcs() == (match u {
                Use::Func(func) if fresh => old(self).noted_funcs().push(func.0),
                _ => old(self).noted_funcs(),
            }),
            final(self).unseen() == old(self).unseen() - if fresh {
                1int
            } else {
                0int
            },
    {
        let fresh = match u {
            Use::Type(t) => id_set_insert(&mut self.seen_types, t.0),
            Use::Const(c) => id_set_insert(&mut self.seen_consts, c.0),
            Use::DataInstForm(f) => id_set_insert(&mut self.seen_data_inst_forms, f.0),
            Use::GlobalVar(gv) => {
                let fresh = id_set_insert(&mut self.seen_global_vars, gv.0);
                if fresh {
                    proof {
                        self.found_global_vars@.lemma_push_to_set_commute(gv.0);
                    }
                    self.found_global_vars.push(gv.0);
                }
                fresh
            },
            Use::Func(func) => {
                let fresh = id_set_insert(&mut self.seen_funcs, func.0);
                if fresh {
                    proof {
                        self.found_funcs@.lemma_push_to_set_commute(func.0);
                    }
                    self.found_funcs.push(func.0);
                }
                fresh
            },
        };
        proof {
            assert(self.seen() =~= old(self).seen().insert(u));
            if !fresh {
                assert(old(self).seen().insert(u) =~= old(self).seen());
                assert(self.seen_types@ =~= old(self).seen_types@);
                assert(self.seen_consts@ =~= old(self).seen_consts@);
                assert(self.seen_data_inst_forms@ =~= old(self).seen_data_inst_forms@);
                assert(self.seen_global_vars@ =~= old(self).seen_global_vars@);
                assert(self.seen_funcs@ =~= old(self).seen_funcs@);
            }
            assert forall|v: Use| #[trigger] self.seen().contains(v) implies reachable(
                self.cx@,
                self.src_module@,
                v,
            ) && self.cx@.use_valid(v) && resident(self.src_module@, v) by {
                if v != u {
                    assert(old(self).seen().contains(v));
                }
            }
        }
        fresh
    }

    /// The definition behind something met.
    fn def_of_use(&self, u: Use) -> (def: &'a Def)
        requires
            self.inv(),
            self.seen().contains(u),
        ensures
            def@.uses == successors(self.context(), self.module(), u),
            self.context().def_valid(def@),
    {
        let cx: &'a Context = self.cx;
        let src_module: &'a Module = self.src_module;
        match u {
            Use::Type(t) => cx.def_of(t.0),
            Use::Const(c) => cx.def_of(c.0),
            Use::DataInstForm(f) => cx.def_of(f.0),
            Use::GlobalVar(gv) => src_module.global_var(gv).unwrap(),
            Use::Func(func) => src_module.func(func).unwrap(),
        }
    }

    /// Follows the references of the definition behind `owner`.
    fn visit_uses(&mut self, def: &Def, owner: Use, Ghost(open): Ghost<Set<Use>>)
        requires
            old(self).inv(),
            !old(self).failed(),
            old(self).seen().contains(owner),
            def@.uses == successors(old(self).context(), old(self).module(), owner),
            closed_except(
                old(self).context(),
                old(self).module(),
                old(self).seen(),
                open.insert(owner),
            ),
        ensures
            final(self).inv(),
            final(self).context() == old(self).context(),
            final(self).module() == old(self).module(),
            old(self).seen().subset_of(final(self).seen()),
            !final(self).failed() ==> closed_except(
                final(self).context(),
                final(self).module(),
                final(self).seen(),
                open,
            ),
            final(self).unseen() <= old(self).unseen(),
        decreases old(self).unseen(), 2int,
    {
        let ghost cx = self.context();
        let ghost m = self.module();
        let mut i: usize = 0;
        while i < def.uses.len()
            invariant
                i <= def.uses@.len(),
                self.inv(),
                self.context() == cx,
                self.module() == m,
                cx == old(self).context(),
                m == old(self).module(),
                def@.uses == successors(cx, m, owner),
                old(self).seen().subset_of(self.seen()),
                self.seen().contains(owner),
                !self.failed() ==> closed_except(cx, m, self.seen(), open.insert(owner)),
                !self.failed() ==> forall|k: int|
                    0 <= k < i ==> self.seen().contains(#[trigger] def.uses@[k]),
                self.unseen() <= old(self).unseen(),
            decreases def.uses@.len() - i,
        {
            let v = def.uses[i];
            proof {
                assert(successors(cx, m, owner).contains(v));
                self.lemma_seen_reachable(owner);
                self.lemma_bounds();
                lemma_successor_reachable(cx, m, owner, v);
                lemma_successor_valid(cx, m, owner, v);
            }
            self.visit_use(v, Ghost(open.insert(owner)));
            i += 1;
        }
        proof {
            if !self.failed() {
                assert forall|a: Use, b: Use|
                    self.seen().contains(a) && !open.contains(a) && #[trigger] successors(
                        cx,
                        m,
                        a,
                    ).contains(b) implies self.seen().contains(b) by {
                    if a == owner {
                        let k = choose|k: int| 0 <= k < def.uses@.len() && def.uses@[k] == b;
                        assert(self.seen().contains(def.uses@[k]));
                    }
                }
            }
        }
    }

    proof fn lemma_seen_reachable(&self, u: Use)
        requires
            self.inv(),
            self.seen().contains(u),
        ensures
            reachable(self.context(), self.module(), u),
            self.context().use_valid(u),
            resident(self.module(), u),
    {
    }

    /// Marks what `u` refers to and all that it reaches. Does nothing once a
    /// declaration was found missing.
    fn visit_use(&mut self, u: Use, Ghost(open): Ghost<Set<Use>>)
        requires
            old(self).inv(),
            reachable(old(self).context(), old(self).module(), u),
            old(self).context().use_valid(u),
            !old(self).failed() ==> closed_except(
                old(self).context(),
                old(self).module(),
                old(self).seen(),
                open,
            ),
        ensures
            final(self).inv(),
            final(self).context() == old(self).context(),
            final(self).module() == old(self).module(),
            old(self).seen().subset_of(final(self).seen()),
            old(self).failed() ==> final(self).failed(),
            old(self).seen().contains(u) ==> {
                &&& final(self).seen() == old(self).seen()
                &&& final(self).noted_global_vars() == old(self).noted_global_vars()
                &&& final(self).noted_funcs() == old(self).noted_funcs()
                &&& final(self).failed() == old(self).failed()
            },
            !final(self).failed() ==> final(self).seen().contains(u) && closed_except(
                final(self).context(),
                final(self).module(),
                final(self).seen(),
                open,
            ),
            final(self).unseen() <= old(self).unseen(),
        decreases old(self).unseen(), 1int,
    {
        if self.missing {
            return;
        }
        match u {
            Use::Type(t) => self.visit_type_use(t, Ghost(open)),
            Use::Const(c) => self.visit_const_use(c, Ghost(open)),
            Use::DataInstForm(f) => self.visit_data_inst_form_use(f, Ghost(open)),
            Use::GlobalVar(gv) => self.visit_global_var_use(gv, Ghost(open)),
            Use::Func(func) => self.visit_func_use(func, Ghost(open)),
        }
    }

    /// Marks the type; the first time it is met, follows its definition.
    fn visit_type_use(&mut self, ty: Type, Ghost(open): Ghost<Set<Use>>)
        requires
            old(self).inv(),
            !old(self).failed(),
            reachable(old(self).context(), old(self).module(), Use::Type(ty)),
            old(self).context().use_valid(Use::Type(ty)),
            closed_except(old(self).context(), old(self).module(), old(self).seen(), open),
        ensures
            final(self).inv(),
            final(self).context() == old(self).context(),
            final(self).module() == old(self).module(),
            old(self).seen().subset_of(final(self).seen()),
            old(self).seen().contains(Use::Type(ty)) ==> {
                &&& final(self).seen() == old(self).seen()
                &&& final(self).noted_global_vars() == old(self).noted_global_vars()
                &&& final(self).noted_funcs() == old(self).noted_funcs()
                &&& !final(self).failed()
            },
            !final(self).failed() ==> final(self).seen().contains(Use::Type(ty)) && closed_except(
                final(self).context(),
                final(self).module(),
                final(self).seen(),
                open,
            ),
            final(self).unseen() <= old(self).unseen(),
        decreases old(self).unseen(), 0int,
    {
        proof {
            self.lemma_bounds();
        }
        if self.mark(Use::Type(ty)) {
            let def = self.def_of_use(Use::Type(ty));
            proof {
                self.lemma_bounds();
            }
            self.visit_uses(def, Use::Type(ty), Ghost(open));
        }
    }

    /// Marks the constant; the first time it is met, follows its definition.
    fn visit_const_use(&mut self, ct: Const, Ghost(open): Ghost<Set<Use>>)
        requires
            old(self).inv(),
            !old(self).failed(),
            reachable(old(self).context(), old(self).module(), Use::Const(ct)),
            old(self).context().use_valid(Use::Const(ct)),
            closed_except(old(self).context(), old(self).module(), old(self).seen(), open),
        ensures
            final(self).inv(),
            final(self).context() == old(self).context(),
            final(self).module() == old(self).module(),
            old(self).seen().subset_of(final(self).seen()),
            old(self).seen().contains(Use::Const(ct)) ==> {
                &&& final(self).seen() == old(self).seen()
                &&& final(self).noted_global_vars() == old(self).noted_global_vars()
                &&& final(self).noted_funcs() == old(self).noted_funcs()
                &&& !final(self).failed()
            },
            !final(self).failed() ==> final(self).seen().contains(Use::Const(ct)) && closed_except(
                final(self).context(),
                final(self).module(),
                final(self).seen(),
                open,
            ),
            final(self).unseen() <= old(self).unseen(),
        decreases old(self).unseen(), 0int,
    {
        proof {
            self.lemma_bounds();
        }
        if self.mark(Use::Const(ct)) {
            let def = self.def_of_use(Use::Const(ct));
            proof {
                self.lemma_bounds();
            }
            self.visit_uses(def, Use::Const(ct), Ghost(open));
        }
    }

    /// Marks the instruction form; the first time it is met, follows its
    /// definition.
    fn visit_data_inst_form_use(
        &mut self,
        data_inst_form: DataInstForm,
        Ghost(open): Ghost<Set<Use>>,
    )
        requires
            old(self).inv(),
            !old(self).failed(),
            reachable(old(self).context(), old(self).module(), Use::DataInstForm(data_inst_form)),
            old(self).context().use_valid(Use::DataInstForm(data_inst_form)),
            closed_except(old(self).context(), old(self).module(), old(self).seen(), open),
        ensures
            final(self).inv(),
            final(self).context() == old(self).context(),
            final(self).module() == old(self).module(),
            old(self).seen().subset_of(final(self).seen()),
            old(self).seen().contains(Use::DataInstForm(data_inst_form)) ==> {
                &&& final(self).seen() == old(self).seen()
                &&& final(self).noted_global_vars() == old(self).noted_global_vars()
                &&& final(self).noted_funcs() == old(self).noted_funcs()
                &&& !final(self).failed()
            },
            !final(self).failed() ==> final(self).seen().contains(
                Use::DataInstForm(data_inst_form),
            ) && closed_except(
                final(self).context(),
                final(self).module(),
                final(self).seen(),
                open,
            ),
            final(self).unseen() <= old(self).unseen(),
        decreases old(self).unseen(), 0int,
    {
        proof {
            self.lemma_bounds();
        }
        if self.mark(Use::DataInstForm(data_inst_form)) {
            let def = self.def_of_use(Use::DataInstForm(data_inst_form));
            proof {
                self.lemma_bounds();
            }
            self.visit_uses(def, Use::DataInstForm(data_inst_form), Ghost(open));
        }
    }

    /// Marks the global variable; the first time it is met, notes it for
    /// copying and follows its declaration. Notes a global variable that the
    /// module lacks as missing.
    fn visit_global_var_use(&mut self, gv: GlobalVar, Ghost(open): Ghost<Set<Use>>)
        requires
            old(self).inv(),
            !old(self).failed(),
            reachable(old(self).context(), old(self).module(), Use::GlobalVar(gv)),
            old(self).context().use_valid(Use::GlobalVar(gv)),
            closed_except(old(self).context(), old(self).module(), old(self).seen(), open),
        ensures
            final(self).inv(),
            final(self).context() == old(self).context(),
            final(self).module() == old(self).module(),
            old(self).seen().subset_of(final(self).seen()),
            old(self).seen().contains(Use::GlobalVar(gv)) ==> {
                &&& final(self).seen() == old(self).seen()
                &&& final(self).noted_global_vars() == old(self).noted_global_vars()
                &&& final(self).noted_funcs() == old(self).noted_funcs()
                &&& !final(self).failed()
            },
            !final(self).failed() ==> final(self).seen().contains(Use::GlobalVar(gv))
                && closed_except(
                final(self).context(),
                final(self).module(),
                final(self).seen(),
                open,
            ),
            final(self).unseen() <= old(self).unseen(),
        decreases old(self).unseen(), 0int,
    {
        proof {
            self.lemma_bounds();
        }
        let src_module: &'a Module = self.src_module;
        match src_module.global_var(gv) {
            Some(def) => {
                if self.mark(Use::GlobalVar(gv)) {
                    proof {
                        self.lemma_bounds();
                    }
                    self.visit_uses(def, Use::GlobalVar(gv), Ghost(open));
                }
            },
            None => {
                proof {
                    if self.seen().contains(Use::GlobalVar(gv)) {
                        self.lemma_seen_reachable(Use::GlobalVar(gv));
                    }
                }
                self.missing = true;
                proof {
                    assert(self.seen() =~= old(self).seen());
                }
            },
        }
    }

    /// Marks the function; the first time it is met, notes it for copying
    /// and follows its declaration. Notes a function that the module lacks as
    /// missing.
    fn visit_func_use(&mut self, func: Func, Ghost(open): Ghost<Set<Use>>)
        requires
            old(self).inv(),
            !old(self).failed(),
            reachable(old(self).context(), old(self).module(), Use::Func(func)),
            old(self).context().use_valid(Use::Func(func)),
            closed_except(old(self).context(), old(self).module(), old(self).seen(), open),
        ensures
            final(self).inv(),
            final(self).context() == old(self).context(),
            final(self).module() == old(self).module(),
            old(self).seen().subset_of(final(self).seen()),
            old(self).seen().contains(Use::Func(func)) ==> {
                &&& final(self).seen() == old(self).seen()
                &&& final(self).noted_global_vars() == old(self).noted_global_vars()
                &&& final(self).noted_funcs() == old(self).noted_funcs()
                &&& !final(self).failed()
            },
            !final(self).failed() ==> final(self).seen().contains(Use::Func(func)) && closed_except(
                final(self).context(),
                final(self).module(),
                final(self).seen(),
                open,
            ),
            final(self).unseen() <= old(self).unseen(),
        decreases old(self).unseen(), 0int,
    {
        proof {
            self.lemma_bounds();
        }
        let src_module: &'a Module = self.src_module;
        match src_module.func(func) {
            Some(def) => {
                if self.mark(Use::Func(func)) {
                    proof {
                        self.lemma_bounds();
                    }
                    self.visit_uses(def, Use::Func(func), Ghost(open));
                }
            },
            None => {
                proof {
                    if self.seen().contains(Use::Func(func)) {
                        self.lemma_seen_reachable(Use::Func(func));
                    }
                }
                self.missing = true;
                proof {
                    assert(self.seen() =~= old(self).seen());
                }
            },
        }
    }

}

/// The declarations that the exports of a module reach.
pub struct Closure {
    /// The global variables reached, each once.
    pub global_vars: Vec<usize>,
    /// The functions reached, each once.
    pub funcs: Vec<usize>,
}

impl Closure {
    /// Whether the lists hold exactly the declarations that the exports of
    /// `m` reach, each once.
    pub open spec fn is_closure_of(&self, cx: ContextView, m: ModuleView) -> bool {
        &&& self.global_vars@.no_duplicates()
        &&& self.funcs@.no_duplicates()
        &&& forall|h: usize|
            self.global_vars@.contains(h) <==> #[trigger] reachable(
                cx,
                m,
                Use::GlobalVar(GlobalVar(h)),
            )
        &&& forall|h: usize|
            self.funcs@.contains(h) <==> #[trigger] reachable(cx, m, Use::Func(Func(h)))
    }
}

/// Collects the declarations that the exports of a module reach; gives
/// nothing where one of them is not in the module.
pub fn collect_closure(cx: &Context, src_module: &Module) -> (found: Option<Closure>)
    requires
        cx.wf(),
        src_module.wf(),
        src_module@.valid_in(cx@),
    ensures
        match found {
            Some(closure) => closed_in(cx@, src_module@) && closure.is_closure_of(
                cx@,
                src_module@,
            ),
            None => !closed_in(cx@, src_module@),
        },
{
    let mut collector = CopyCollector::new(cx, src_module);
    let ghost none = Set::<Use>::empty();
    let mut i: usize = 0;
    while i < src_module.export_count()
        invariant
            i <= src_module@.exports.len(),
            collector.inv(),
            collector.context() == cx@,
            collector.module() == src_module@,
            none == Set::<Use>::empty(),
            !collector.failed() ==> closed_except(cx@, src_module@, collector.seen(), none),
            !collector.failed() ==> forall|k: int|
                0 <= k < i ==> collector.seen().contains(
                    (#[trigger] src_module@.exports[k]).1.spec_as_use(),
                ),
        decreases src_module@.exports.len() - i,
    {
        let exportee = src_module.export_target(i);
        proof {
            assert(is_root(src_module@, src_module@.exports[i as int].1.spec_as_use()));
            lemma_root_reachable(cx@, src_module@, exportee.spec_as_use());
        }
        collector.visit_use(exportee.as_use(), Ghost(none));
        i += 1;
    }
    if collector.missing {
        return None;
    }
    proof {
        let seen = collector.seen();
        assert forall|r: Use| is_root(src_module@, r) implies seen.contains(r) by {
            let k = choose|k: int|
                0 <= k < src_module@.exports.len() && (
                #[trigger] src_module@.exports[k]).1.spec_as_use() == r;
            assert(seen.contains(src_module@.exports[k].1.spec_as_use()));
        }
        assert forall|u: Use| #[trigger] reachable(cx@, src_module@, u) implies match u {
            Use::GlobalVar(gv) => src_module@.global_vars.contains_key(gv.0),
            Use::Func(func) => src_module@.funcs.contains_key(func.0),
            _ => true,
        } by {
            lemma_closed_set_holds_reachable(cx@, src_module@, seen, u);
            collector.lemma_seen_reachable(u);
        }
        assert forall|h: usize|
            collector.found_global_vars@.contains(h) <==> #[trigger] reachable(
                cx@,
                src_module@,
                Use::GlobalVar(GlobalVar(h)),
            ) by {
            let u = Use::GlobalVar(GlobalVar(h));
            if reachable(cx@, src_module@, u) {
                lemma_closed_set_holds_reachable(cx@, src_module@, seen, u);
                assert(collector.seen_global_vars@.contains(h));
                assert(collector.found_global_vars@.to_set().contains(h));
            }
            if collector.found_global_vars@.contains(h) {
                assert(collector.found_global_vars@.to_set().contains(h));
                assert(seen.contains(u));
            }
        }
        assert forall|h: usize|
            collector.found_funcs@.contains(h) <==> #[trigger] reachable(
                cx@,
                src_module@,
                Use::Func(Func(h)),
            ) by {
            let u = Use::Func(Func(h));
            if reachable(cx@, src_module@, u) {
                lemma_closed_set_holds_reachable(cx@, src_module@, seen, u);
                assert(collector.seen_funcs@.contains(h));
                assert(collector.found_funcs@.to_set().contains(h));
            }
            if collector.found_funcs@.contains(h) {
                assert(collector.found_funcs@.to_set().contains(h));
                assert(seen.contains(u));
            }
        }
    }
    Some(Closure { global_vars: collector.found_global_vars, funcs: collector.found_funcs })
}

/// Whether the module holds every declaration that its exports reach.
pub fn is_closed_in(cx: &Context, module: &Module) -> (closed: bool)
    requires
        cx.wf(),
        module.wf(),
        module@.valid_in(cx@),
    ensures
        closed == closed_in(cx@, module@),
{
    collect_closure(cx, module).is_some()
}

} // verus!
