//! Rewriting of references when a module is merged into another: every
//! reference to a declaration that was copied is replaced by a reference to
//! the copy, and every interned value that holds such a reference, however
//! deep, by the interned value that holds the copy's in its place.

use crate::context::{lemma_use_valid_extends, Context, ContextView, InternedKind};
use crate::ir::{Const, DataInstForm, Def, DefView, Func, GlobalVar, Type, Use};
use crate::module::ModuleView;
use crate::reach::{lemma_successor_reachable, lemma_successor_valid, reachable, successors};
use crate::tables::{id_map_get, id_map_insert, id_map_new};
use rustc_hash::FxHashMap;
use std::collections::VecDeque;
use vstd::prelude::*;

verus! {

broadcast use vstd::std_specs::hash::group_hash_axioms;

/// What a handle is replaced by: its image where the map has one, itself
/// where it has none.
pub open spec fn subst(map: Map<usize, usize>, h: usize) -> usize {
    if map.contains_key(h) {
        map[h]
    } else {
        h
    }
}

/// Whether the interned value at `to` is the one at `from` with every
/// reference rewritten.
pub open spec fn interned_rewrites(
    cx: ContextView,
    gmap: Map<usize, usize>,
    fmap: Map<usize, usize>,
    from: usize,
    to: usize,
) -> bool
    decreases from, 1int,
{
    &&& from < cx.interned.len()
    &&& to < cx.interned.len()
    &&& cx.interned[from as int].0 == cx.interned[to as int].0
    &&& cx.interned[from as int].1.data == cx.interned[to as int].1.data
    &&& cx.interned[from as int].1.uses.len() == cx.interned[to as int].1.uses.len()
    &&& forall|k: int|
        0 <= k < cx.interned[from as int].1.uses.len() ==> use_rewrites(
            cx,
            gmap,
            fmap,
            cx.interned[from as int].1.uses[k],
            #[trigger] cx.interned[to as int].1.uses[k],
            from,
        )
}

/// Whether `w` is the reference `u` rewritten: a declaration is replaced as
/// the maps say, an interned value, which stands below `bound`, by the
/// interned value that is it rewritten.
pub open spec fn use_rewrites(
    cx: ContextView,
    gmap: Map<usize, usize>,
    fmap: Map<usize, usize>,
    u: Use,
    w: Use,
    bound: usize,
) -> bool
    decreases bound, 0int,
{
    match u {
        Use::GlobalVar(gv) => w == Use::GlobalVar(GlobalVar(subst(gmap, gv.0))),
        Use::Func(func) => w == Use::Func(Func(subst(fmap, func.0))),
        Use::Type(t) => w matches Use::Type(t2) && t.0 < bound && interned_rewrites(
            cx,
            gmap,
            fmap,
            t.0,
            t2.0,
        ),
        Use::Const(c) => w matches Use::Const(c2) && c.0 < bound && interned_rewrites(
            cx,
            gmap,
            fmap,
            c.0,
            c2.0,
        ),
        Use::DataInstForm(f) => w matches Use::DataInstForm(f2) && f.0 < bound
            && interned_rewrites(cx, gmap, fmap, f.0, f2.0),
    }
}

/// Whether the definition `to` is `from` with every reference rewritten.
pub open spec fn def_rewrites(
    cx: ContextView,
    gmap: Map<usize, usize>,
    fmap: Map<usize, usize>,
    from: DefView,
    to: DefView,
) -> bool {
    &&& from.data == to.data
    &&& from.uses.len() == to.uses.len()
    &&& forall|k: int|
        0 <= k < from.uses.len() ==> use_rewrites(
            cx,
            gmap,
            fmap,
            from.uses[k],
            #[trigger] to.uses[k],
            cx.interned.len() as usize,
        )
}

/// Whether the interned value at `h` refers, directly or through the values
/// it refers to, to a declaration that a map sends to a copy.
pub open spec fn refers_to_copied(
    cx: ContextView,
    gmap: Map<usize, usize>,
    fmap: Map<usize, usize>,
    h: usize,
) -> bool
    decreases h, 1int,
{
    h < cx.interned.len() && exists|k: int|
        0 <= k < cx.interned[h as int].1.uses.len() && use_refers_to_copied(
            cx,
            gmap,
            fmap,
            #[trigger] cx.interned[h as int].1.uses[k],
            h,
        )
}

/// Whether the reference is to a declaration that a map sends to a copy, or
/// to an interned value, below `bound`, that refers to one.
pub open spec fn use_refers_to_copied(
    cx: ContextView,
    gmap: Map<usize, usize>,
    fmap: Map<usize, usize>,
    u: Use,
    bound: usize,
) -> bool
    decreases bound, 0int,
{
    match u {
        Use::GlobalVar(gv) => gmap.contains_key(gv.0),
        Use::Func(func) => fmap.contains_key(func.0),
        Use::Type(t) => t.0 < bound && refers_to_copied(cx, gmap, fmap, t.0),
        Use::Const(c) => c.0 < bound && refers_to_copied(cx, gmap, fmap, c.0),
        Use::DataInstForm(f) => f.0 < bound && refers_to_copied(cx, gmap, fmap, f.0),
    }
}

/// Whether no map sends a declaration to itself.
pub open spec fn copies_differ(gmap: Map<usize, usize>, fmap: Map<usize, usize>) -> bool {
    &&& forall|g: usize| #[trigger] gmap.contains_key(g) ==> gmap[g] != g
    &&& forall|f: usize| #[trigger] fmap.contains_key(f) ==> fmap[f] != f
}

/// An interned value rewritten is the value itself exactly where the value
/// refers, however deep, to no declaration that was copied.
pub proof fn lemma_stays_iff_nothing_copied(
    cx: ContextView,
    gmap: Map<usize, usize>,
    fmap: Map<usize, usize>,
    from: usize,
    to: usize,
)
    requires
        cx.wf(),
        copies_differ(gmap, fmap),
        interned_rewrites(cx, gmap, fmap, from, to),
    ensures
        to == from <==> !refers_to_copied(cx, gmap, fmap, from),
    decreases from, 1int,
{
    let uses = cx.interned[from as int].1.uses;
    let rewritten = cx.interned[to as int].1.uses;
    assert forall|k: int| 0 <= k < uses.len() implies (rewritten[k] == uses[k]
        <==> !use_refers_to_copied(cx, gmap, fmap, #[trigger] uses[k], from)) by {
        assert(use_rewrites(cx, gmap, fmap, uses[k], rewritten[k], from));
        lemma_use_stays_iff_nothing_copied(cx, gmap, fmap, uses[k], rewritten[k], from);
    }
    if !refers_to_copied(cx, gmap, fmap, from) {
        assert forall|k: int| 0 <= k < uses.len() implies rewritten[k] == uses[k] by {
            assert(!use_refers_to_copied(cx, gmap, fmap, uses[k], from));
        }
        assert(rewritten =~= uses);
        assert(cx.interned[to as int] == cx.interned[from as int]);
        if to < from {
            assert(cx.interned[to as int] != cx.interned[from as int]);
        } else if from < to {
            assert(cx.interned[from as int] != cx.interned[to as int]);
        }
    } else {
        let k = choose|k: int|
            0 <= k < uses.len() && use_refers_to_copied(cx, gmap, fmap, #[trigger] uses[k], from);
        assert(rewritten[k] != uses[k]);
    }
}

/// A reference rewritten is the reference itself exactly where it is to no
/// declaration that was copied and to no interned value that refers to one.
pub proof fn lemma_use_stays_iff_nothing_copied(
    cx: ContextView,
    gmap: Map<usize, usize>,
    fmap: Map<usize, usize>,
    u: Use,
    w: Use,
    bound: usize,
)
    requires
        cx.wf(),
        copies_differ(gmap, fmap),
        use_rewrites(cx, gmap, fmap, u, w, bound),
    ensures
        w == u <==> !use_refers_to_copied(cx, gmap, fmap, u, bound),
    decreases bound, 0int,
{
    match u {
        Use::Type(t) => {
            lemma_stays_iff_nothing_copied(cx, gmap, fmap, t.0, w->Type_0.0);
        },
        Use::Const(c) => {
            lemma_stays_iff_nothing_copied(cx, gmap, fmap, c.0, w->Const_0.0);
        },
        Use::DataInstForm(f) => {
            lemma_stays_iff_nothing_copied(cx, gmap, fmap, f.0, w->DataInstForm_0.0);
        },
        _ => {},
    }
}

/// A value that is another rewritten stays so when more is interned.
pub proof fn lemma_interned_rewrites_stable(
    cx: ContextView,
    later: ContextView,
    gmap: Map<usize, usize>,
    fmap: Map<usize, usize>,
    from: usize,
    to: usize,
)
    requires
        later.extends(cx),
        interned_rewrites(cx, gmap, fmap, from, to),
    ensures
        interned_rewrites(later, gmap, fmap, from, to),
    decreases from, 1int,
{
    assert forall|k: int| 0 <= k < later.interned[from as int].1.uses.len() implies use_rewrites(
        later,
        gmap,
        fmap,
        later.interned[from as int].1.uses[k],
        #[trigger] later.interned[to as int].1.uses[k],
        from,
    ) by {
        assert(use_rewrites(
            cx,
            gmap,
            fmap,
            cx.interned[from as int].1.uses[k],
            cx.interned[to as int].1.uses[k],
            from,
        ));
        lemma_use_rewrites_stable(
            cx,
            later,
            gmap,
            fmap,
            cx.interned[from as int].1.uses[k],
            cx.interned[to as int].1.uses[k],
            from,
            from,
        );
    }
}

/// A reference that is another rewritten stays so when more is interned, and
/// under any larger bound.
pub proof fn lemma_use_rewrites_stable(
    cx: ContextView,
    later: ContextView,
    gmap: Map<usize, usize>,
    fmap: Map<usize, usize>,
    u: Use,
    w: Use,
    bound: usize,
    larger: usize,
)
    requires
        later.extends(cx),
        bound <= larger,
        use_rewrites(cx, gmap, fmap, u, w, bound),
    ensures
        use_rewrites(later, gmap, fmap, u, w, larger),
    decreases bound, 0int,
{
    match u {
        Use::Type(t) => {
            lemma_interned_rewrites_stable(cx, later, gmap, fmap, t.0, w->Type_0.0);
        },
        Use::Const(c) => {
            lemma_interned_rewrites_stable(cx, later, gmap, fmap, c.0, w->Const_0.0);
        },
        Use::DataInstForm(f) => {
            lemma_interned_rewrites_stable(cx, later, gmap, fmap, f.0, w->DataInstForm_0.0);
        },
        _ => {},
    }
}

/// What a rewrite did to a handle.
#[derive(Clone, Copy, Debug, PartialEq, Eq, Structural)]
pub enum Transformed {
    /// The handle stays as it is.
    Unchanged,
    /// The handle is replaced by this one.
    Changed(usize),
}

impl Transformed {
    /// The handle that `h` becomes.
    pub open spec fn spec_apply_to(self, h: usize) -> usize {
        match self {
            Transformed::Unchanged => h,
            Transformed::Changed(to) => to,
        }
    }

    /// The handle that `h` becomes.
    #[verifier::when_used_as_spec(spec_apply_to)]
    pub fn apply_to(self, h: usize) -> (to: usize)
        ensures
            to == self.spec_apply_to(h),
    {
        match self {
            Transformed::Unchanged => h,
            Transformed::Changed(to) => to,
        }
    }
}

/// The reference to the interned value of the given kind at `h`.
pub open spec fn interned_use(kind: InternedKind, h: usize) -> Use {
    match kind {
        InternedKind::Type => Use::Type(Type(h)),
        InternedKind::Const => Use::Const(Const(h)),
        InternedKind::DataInstForm => Use::DataInstForm(DataInstForm(h)),
    }
}

/// Rewrites references by the maps from the declarations of the merged
/// module to their copies. Each handle is rewritten once and the result
/// kept; each declaration met that has no image is queued, for its own
/// references to be rewritten in place.
pub(crate) struct DeclRewrite<'a> {
    resolved_global_vars: &'a FxHashMap<usize, usize>,
    resolved_funcs: &'a FxHashMap<usize, usize>,
    transformed_types: FxHashMap<usize, Transformed>,
    transformed_consts: FxHashMap<usize, Transformed>,
    transformed_data_inst_forms: FxHashMap<usize, Transformed>,
    transformed_global_vars: FxHashMap<usize, Transformed>,
    global_var_queue: VecDeque<usize>,
    transformed_funcs: FxHashMap<usize, Transformed>,
    func_queue: VecDeque<usize>,
    /// The context as it was when merging began.
    origin: Ghost<ContextView>,
    /// The merged module.
    merged: Ghost<ModuleView>,
}

impl<'a> DeclRewrite<'a> {
    /// The map from the global variables of the merged module to their copies.
    pub closed spec fn gmap(&self) -> Map<usize, usize> {
        self.resolved_global_vars@
    }

    /// The map from the functions of the merged module to their copies.
    pub closed spec fn fmap(&self) -> Map<usize, usize> {
        self.resolved_funcs@
    }

    /// The context as it was when merging began.
    pub closed spec fn origin(&self) -> ContextView {
        self.origin@
    }

    /// The merged module.
    pub closed spec fn merged(&self) -> ModuleView {
        self.merged@
    }

    /// The global variables queued, first to last.
    pub closed spec fn queued_global_vars(&self) -> Seq<usize> {
        self.global_var_queue@
    }

    /// The functions queued, first to last.
    pub closed spec fn queued_funcs(&self) -> Seq<usize> {
        self.func_queue@
    }

    /// The results kept for interned values of the given kind.
    pub closed spec fn interned_memo(&self, kind: InternedKind) -> Map<usize, Transformed> {
        match kind {
            InternedKind::Type => self.transformed_types@,
            InternedKind::Const => self.transformed_consts@,
            InternedKind::DataInstForm => self.transformed_data_inst_forms@,
        }
    }

    /// The results kept for global variables.
    pub closed spec fn global_var_memo(&self) -> Map<usize, Transformed> {
        self.transformed_global_vars@
    }

    /// The results kept for functions.
    pub closed spec fn func_memo(&self) -> Map<usize, Transformed> {
        self.transformed_funcs@
    }

    /// Whether the reference was rewritten already.
    pub open spec fn has_transformed(&self, u: Use) -> bool {
        match u {
            Use::Type(t) => self.interned_memo(InternedKind::Type).contains_key(t.0),
            Use::Const(c) => self.interned_memo(InternedKind::Const).contains_key(c.0),
            Use::DataInstForm(f) => self.interned_memo(InternedKind::DataInstForm).contains_key(
                f.0,
            ),
            Use::GlobalVar(gv) => self.global_var_memo().contains_key(gv.0),
            Use::Func(func) => self.func_memo().contains_key(func.0),
        }
    }

    /// Whether the maps send exactly the declarations that the exports of the
    /// merged module reach to handles that the context handed out later than
    /// any of them.
    pub open spec fn maps_ok(&self, cx: ContextView) -> bool {
        &&& forall|g: usize|
            self.gmap().contains_key(g) <==> #[trigger] reachable(
                self.origin(),
                self.merged(),
                Use::GlobalVar(GlobalVar(g)),
            )
        &&& forall|f: usize|
            self.fmap().contains_key(f) <==> #[trigger] reachable(
                self.origin(),
                self.merged(),
                Use::Func(Func(f)),
            )
        &&& forall|g: usize| #[trigger]
            self.gmap().contains_key(g) ==> g < self.origin().next_global_var
                <= self.gmap()[g] < cx.next_global_var
        &&& forall|f: usize| #[trigger]
            self.fmap().contains_key(f) ==> f < self.origin().next_func <= self.fmap()[f]
                < cx.next_func
        &&& forall|g1: usize, g2: usize|
            #![trigger self.gmap().contains_key(g1), self.gmap().contains_key(g2)]
            self.gmap().contains_key(g1) && self.gmap().contains_key(g2) && self.gmap()[g1]
                == self.gmap()[g2] ==> g1 == g2
        &&& forall|f1: usize, f2: usize|
            #![trigger self.fmap().contains_key(f1), self.fmap().contains_key(f2)]
            self.fmap().contains_key(f1) && self.fmap().contains_key(f2) && self.fmap()[f1]
                == self.fmap()[f2] ==> f1 == f2
    }

    /// Whether the global variable was rewritten and is not queued.
    pub open spec fn done_global_var(&self, h: usize) -> bool {
        self.global_var_memo().contains_key(h) && !self.queued_global_vars().contains(h)
    }

    /// Whether the function was rewritten and is not queued.
    pub open spec fn done_func(&self, h: usize) -> bool {
        self.func_memo().contains_key(h) && !self.queued_funcs().contains(h)
    }

    /// Whether `h` is the copy of a global variable.
    pub open spec fn is_global_var_copy(&self, h: usize) -> bool {
        exists|g: usize| #[trigger] self.gmap().contains_key(g) && self.gmap()[g] == h
    }

    /// Whether `h` is the copy of a function.
    pub open spec fn is_func_copy(&self, h: usize) -> bool {
        exists|f: usize| #[trigger] self.fmap().contains_key(f) && self.fmap()[f] == h
    }

    /// Whether each result kept for an interned value is that value
    /// rewritten, says that the value stays exactly where the value rewritten
    /// is the value itself, and all that the value refers to was rewritten
    /// too.
    pub open spec fn interned_memo_ok(&self, cx: ContextView, kind: InternedKind) -> bool {
        forall|h: usize| #[trigger]
            self.interned_memo(kind).contains_key(h) ==> {
                &&& h < self.origin().interned.len()
                &&& h < cx.interned.len()
                &&& cx.interned[h as int].0 == kind
                &&& reachable(self.origin(), self.merged(), interned_use(kind, h))
                &&& interned_rewrites(
                    cx,
                    self.gmap(),
                    self.fmap(),
                    h,
                    self.interned_memo(kind)[h].spec_apply_to(h),
                )
                &&& self.interned_memo(kind)[h] is Unchanged <==> self.interned_memo(
                    kind,
                )[h].spec_apply_to(h) == h
                &&& forall|k: int|
                    0 <= k < cx.interned[h as int].1.uses.len() ==> self.has_transformed(
                        #[trigger] cx.interned[h as int].1.uses[k],
                    )
            }
    }

    /// Whether each result kept for a declaration is what the maps say, each
    /// such declaration is one of the merged module that its exports reach
    /// or the copy of one, the copy of each one rewritten was rewritten too,
    /// and the queues hold, each once, copies that were rewritten.
    pub open spec fn decl_memo_ok(&self) -> bool {
        &&& forall|g: usize| #[trigger]
            self.global_var_memo().contains_key(g) ==> {
                &&& self.global_var_memo()[g].spec_apply_to(g) == subst(self.gmap(), g)
                &&& self.gmap().contains_key(g) || self.is_global_var_copy(g)
                &&& self.gmap().contains_key(g) ==> self.global_var_memo().contains_key(
                    self.gmap()[g],
                )
            }
        &&& forall|f: usize| #[trigger]
            self.func_memo().contains_key(f) ==> {
                &&& self.func_memo()[f].spec_apply_to(f) == subst(self.fmap(), f)
                &&& self.fmap().contains_key(f) || self.is_func_copy(f)
                &&& self.fmap().contains_key(f) ==> self.func_memo().contains_key(self.fmap()[f])
            }
        &&& self.queued_global_vars().no_duplicates()
        &&& forall|i: int|
            0 <= i < self.queued_global_vars().len() ==> {
                &&& self.global_var_memo().contains_key(#[trigger] self.queued_global_vars()[i])
                &&& !self.gmap().contains_key(self.queued_global_vars()[i])
            }
        &&& self.queued_funcs().no_duplicates()
        &&& forall|i: int|
            0 <= i < self.queued_funcs().len() ==> {
                &&& self.func_memo().contains_key(#[trigger] self.queued_funcs()[i])
                &&& !self.fmap().contains_key(self.queued_funcs()[i])
            }
    }

    /// The state is consistent with the context `cx`.
    pub open spec fn inv(&self, cx: ContextView) -> bool {
        &&& cx.wf()
        &&& self.origin().wf()
        &&& cx.extends(self.origin())
        &&& self.merged().valid_in(self.origin())
        &&& self.maps_ok(cx)
        &&& self.interned_memo_ok(cx, InternedKind::Type)
        &&& self.interned_memo_ok(cx, InternedKind::Const)
        &&& self.interned_memo_ok(cx, InternedKind::DataInstForm)
        &&& self.decl_memo_ok()
    }

    /// Whether nothing that `earlier` kept was dropped, and the declarations
    /// that are rewritten and not queued are the same.
    pub open spec fn grew_from(&self, earlier: &DeclRewrite<'a>) -> bool {
        &&& self.gmap() == earlier.gmap()
        &&& self.fmap() == earlier.fmap()
        &&& self.origin() == earlier.origin()
        &&& self.merged() == earlier.merged()
        &&& forall|u: Use| #[trigger] earlier.has_transformed(u) ==> self.has_transformed(u)
        &&& forall|h: usize|
            #![trigger self.done_global_var(h)]
            #![trigger earlier.done_global_var(h)]
            !self.gmap().contains_key(h) ==> (self.done_global_var(h)
                <==> earlier.done_global_var(h))
        &&& forall|h: usize|
            #![trigger self.done_func(h)]
            #![trigger earlier.done_func(h)]
            !self.fmap().contains_key(h) ==> (self.done_func(h) <==> earlier.done_func(h))
    }

    pub proof fn lemma_grew_trans(&self, mid: &DeclRewrite<'a>, earlier: &DeclRewrite<'a>)
        requires
            self.grew_from(mid),
            mid.grew_from(earlier),
        ensures
            self.grew_from(earlier),
    {
        assert forall|u: Use| #[trigger] earlier.has_transformed(u) implies self.has_transformed(
            u,
        ) by {
            assert(mid.has_transformed(u));
        }
        assert forall|h: usize|
            #![trigger self.done_global_var(h)]
            #![trigger earlier.done_global_var(h)]
            !self.gmap().contains_key(h) implies (self.done_global_var(h)
            <==> earlier.done_global_var(h)) by {
            assert(self.done_global_var(h) <==> mid.done_global_var(h));
        }
        assert forall|h: usize|
            #![trigger self.done_func(h)]
            #![trigger earlier.done_func(h)]
            !self.fmap().contains_key(h) implies (self.done_func(h) <==> earlier.done_func(
            h,
        )) by {
            assert(self.done_func(h) <==> mid.done_func(h));
        }
    }

    /// The state stays consistent when more is interned.
    proof fn lemma_inv_extends(&self, cx: ContextView, later: ContextView)
        requires
            self.inv(cx),
            later.wf(),
            later.extends(cx),
        ensures
            self.inv(later),
    {
        self.lemma_memo_extends(cx, later, InternedKind::Type);
        self.lemma_memo_extends(cx, later, InternedKind::Const);
        self.lemma_memo_extends(cx, later, InternedKind::DataInstForm);
    }

    proof fn lemma_memo_extends(&self, cx: ContextView, later: ContextView, kind: InternedKind)
        requires
            self.interned_memo_ok(cx, kind),
            cx.extends(self.origin()),
            later.extends(cx),
        ensures
            self.interned_memo_ok(later, kind),
    {
        assert forall|h: usize| #[trigger]
            self.interned_memo(kind).contains_key(h) implies {
            &&& h < self.origin().interned.len()
            &&& h < later.interned.len()
            &&& later.interned[h as int].0 == kind
            &&& reachable(self.origin(), self.merged(), interned_use(kind, h))
            &&& interned_rewrites(
                later,
                self.gmap(),
                self.fmap(),
                h,
                self.interned_memo(kind)[h].spec_apply_to(h),
            )
            &&& self.interned_memo(kind)[h] is Unchanged <==> self.interned_memo(
                kind,
            )[h].spec_apply_to(h) == h
            &&& forall|k: int|
                0 <= k < later.interned[h as int].1.uses.len() ==> self.has_transformed(
                    #[trigger] later.interned[h as int].1.uses[k],
                )
        } by {
            lemma_interned_rewrites_stable(
                cx,
                later,
                self.gmap(),
                self.fmap(),
                h,
                self.interned_memo(kind)[h].spec_apply_to(h),
            );
            assert(later.interned[h as int] == cx.interned[h as int]);
        }
    }

    /// A rewriter that has rewritten nothing yet.
    pub(crate) fn new(
        resolved_global_vars: &'a FxHashMap<usize, usize>,
        resolved_funcs: &'a FxHashMap<usize, usize>,
        Ghost(origin): Ghost<ContextView>,
        Ghost(merged): Ghost<ModuleView>,
    ) -> (rewrite: DeclRewrite<'a>)
        ensures
            rewrite.gmap() == resolved_global_vars@,
            rewrite.fmap() == resolved_funcs@,
            rewrite.origin() == origin,
            rewrite.merged() == merged,
            rewrite.queued_global_vars() == Seq::<usize>::empty(),
            rewrite.queued_funcs() == Seq::<usize>::empty(),
            forall|u: Use| !rewrite.has_transformed(u),
    {
        DeclRewrite {
            resolved_global_vars,
            resolved_funcs,
            transformed_types: id_map_new(),
            transformed_consts: id_map_new(),
            transformed_data_inst_forms: id_map_new(),
            transformed_global_vars: id_map_new(),
            global_var_queue: VecDeque::new(),
            transformed_funcs: id_map_new(),
            func_queue: VecDeque::new(),
            origin: Ghost(origin),
            merged: Ghost(merged),
        }
    }

    /// Takes the first global variable out of the queue.
    pub(crate) fn pop_global_var(&mut self) -> (next: Option<usize>)
        ensures
            final(self).gmap() == old(self).gmap(),
            final(self).fmap() == old(self).fmap(),
            final(self).origin() == old(self).origin(),
            final(self).merged() == old(self).merged(),
            final(self).global_var_memo() == old(self).global_var_memo(),
            final(self).func_memo() == old(self).func_memo(),
            forall|kind: InternedKind|
                final(self).interned_memo(kind) == old(self).interned_memo(kind),
            final(self).queued_funcs() == old(self).queued_funcs(),
            match next {
                Some(h) => {
                    &&& old(self).queued_global_vars().len() > 0
                    &&& h == old(self).queued_global_vars()[0]
                    &&& final(self).queued_global_vars() == old(self).queued_global_vars().skip(1)
                },
                None => {
                    &&& old(self).queued_global_vars().len() == 0
                    &&& final(self).queued_global_vars() == old(self).queued_global_vars()
                },
            },
    {
        let next = self.global_var_queue.pop_front();
        proof {
            if next is Some {
                assert(self.global_var_queue@ =~= old(self).global_var_queue@.skip(1));
            }
        }
        next
    }

    /// Takes the first function out of the queue.
    pub(crate) fn pop_func(&mut self) -> (next: Option<usize>)
        ensures
            final(self).gmap() == old(self).gmap(),
            final(self).fmap() == old(self).fmap(),
            final(self).origin() == old(self).origin(),
            final(self).merged() == old(self).merged(),
            final(self).global_var_memo() == old(self).global_var_memo(),
            final(self).func_memo() == old(self).func_memo(),
            forall|kind: InternedKind|
                final(self).interned_memo(kind) == old(self).interned_memo(kind),
            final(self).queued_global_vars() == old(self).queued_global_vars(),
            match next {
                Some(h) => old(self).queued_funcs().len() > 0 && h == old(self).queued_funcs()[0]
                    && final(self).queued_funcs() == old(self).queued_funcs().skip(1),
                None => old(self).queued_funcs().len() == 0 && final(self).queued_funcs()
                    == old(self).queued_funcs(),
            },
    {
        let next = self.func_queue.pop_front();
        proof {
            if next is Some {
                assert(self.func_queue@ =~= old(self).func_queue@.skip(1));
            }
        }
        next
    }

    /// Whether both queues are empty.
    pub(crate) fn queues_empty(&self) -> (r: bool)
        ensures
            r == (self.queued_global_vars().len() == 0 && self.queued_funcs().len() == 0),
    {
        self.global_var_queue.len() == 0 && self.func_queue.len() == 0
    }

    /// What was rewritten and not queued stays so as more is rewritten.
    pub proof fn lemma_done_kept(&self, earlier: &DeclRewrite<'a>, h: usize)
        requires
            self.grew_from(earlier),
            self.decl_memo_ok(),
            earlier.done_global_var(h),
        ensures
            self.done_global_var(h),
    {
        assert(earlier.has_transformed(Use::GlobalVar(GlobalVar(h))));
        assert(self.has_transformed(Use::GlobalVar(GlobalVar(h))));
        if self.gmap().contains_key(h) {
            let q = self.queued_global_vars();
            if q.contains(h) {
                let i = choose|i: int| 0 <= i < q.len() && q[i] == h;
                assert(!self.gmap().contains_key(q[i]));
            }
        }
    }

    /// What was rewritten and not queued stays so as more is rewritten.
    pub proof fn lemma_done_func_kept(&self, earlier: &DeclRewrite<'a>, h: usize)
        requires
            self.grew_from(earlier),
            self.decl_memo_ok(),
            earlier.done_func(h),
        ensures
            self.done_func(h),
    {
        assert(earlier.has_transformed(Use::Func(Func(h))));
        assert(self.has_transformed(Use::Func(Func(h))));
        if self.fmap().contains_key(h) {
            let q = self.queued_funcs();
            if q.contains(h) {
                let i = choose|i: int| 0 <= i < q.len() && q[i] == h;
                assert(!self.fmap().contains_key(q[i]));
            }
        }
    }

    /// The results kept for interned values stay right when more
    /// declarations are rewritten.
    pub proof fn lemma_memo_kept(
        &self,
        earlier: &DeclRewrite<'a>,
        cx: ContextView,
        kind: InternedKind,
    )
        requires
            earlier.interned_memo_ok(cx, kind),
            self.interned_memo(kind) == earlier.interned_memo(kind),
            self.gmap() == earlier.gmap(),
            self.fmap() == earlier.fmap(),
            self.origin() == earlier.origin(),
            self.merged() == earlier.merged(),
            forall|u: Use| #[trigger] earlier.has_transformed(u) ==> self.has_transformed(u),
        ensures
            self.interned_memo_ok(cx, kind),
    {
        assert forall|h: usize| #[trigger]
            self.interned_memo(kind).contains_key(h) implies forall|k: int|
            0 <= k < cx.interned[h as int].1.uses.len() ==> self.has_transformed(
                #[trigger] cx.interned[h as int].1.uses[k],
            ) by {
            assert(earlier.interned_memo(kind).contains_key(h));
            assert forall|k: int|
                0 <= k < cx.interned[h as int].1.uses.len() implies self.has_transformed(
                #[trigger] cx.interned[h as int].1.uses[k],
            ) by {
                assert(earlier.has_transformed(cx.interned[h as int].1.uses[k]));
            }
        }
    }

    /// What rewriting a reference to the global variable `h` gives: the
    /// result kept for it where there is one; else its copy where it has
    /// one; else that it stays.
    pub open spec fn global_var_result(&self, h: usize) -> Transformed {
        if self.global_var_memo().contains_key(h) {
            self.global_var_memo()[h]
        } else if self.gmap().contains_key(h) {
            Transformed::Changed(self.gmap()[h])
        } else {
            Transformed::Unchanged
        }
    }

    /// The queue of global variables after a reference to `h` was rewritten:
    /// as it was where a result was kept for `h`; else with the copy of `h`
    /// at the back, unless a result was kept for the copy; else, where `h`
    /// has no copy, with `h` at the back.
    pub open spec fn global_var_queue_after(&self, h: usize) -> Seq<usize> {
        if self.global_var_memo().contains_key(h) {
            self.queued_global_vars()
        } else if self.gmap().contains_key(h) {
            if self.global_var_memo().contains_key(self.gmap()[h]) {
                self.queued_global_vars()
            } else {
                self.queued_global_vars().push(self.gmap()[h])
            }
        } else {
            self.queued_global_vars().push(h)
        }
    }

    /// The results kept for global variables after a reference to `h` was
    /// rewritten: as they were where one was kept for `h`; else with the
    /// result for `h` added, and with it, where `h` has a copy for which
    /// none was kept, that the copy stays.
    pub open spec fn global_var_memo_after(&self, h: usize) -> Map<usize, Transformed> {
        if self.global_var_memo().contains_key(h) {
            self.global_var_memo()
        } else if self.gmap().contains_key(h) {
            let copy = self.gmap()[h];
            if self.global_var_memo().contains_key(copy) {
                self.global_var_memo().insert(h, Transformed::Changed(copy))
            } else {
                self.global_var_memo().insert(copy, Transformed::Unchanged).insert(
                    h,
                    Transformed::Changed(copy),
                )
            }
        } else {
            self.global_var_memo().insert(h, Transformed::Unchanged)
        }
    }

    /// Rewrites a reference to a global variable: to its copy where it has
    /// one; else it stays, and the global variable is queued.
    pub(crate) fn transform_global_var_use(
        &mut self,
        gv: GlobalVar,
        Ghost(cx): Ghost<ContextView>,
    ) -> (transformed: Transformed)
        requires
            old(self).inv(cx),
            old(self).gmap().contains_key(gv.0) || old(self).is_global_var_copy(gv.0),
        ensures
            final(self).inv(cx),
            final(self).grew_from(old(self)),
            final(self).has_transformed(Use::GlobalVar(gv)),
            transformed.spec_apply_to(gv.0) == subst(old(self).gmap(), gv.0),
            transformed == old(self).global_var_result(gv.0),
            final(self).queued_global_vars() == old(self).global_var_queue_after(gv.0),
            final(self).global_var_memo() == old(self).global_var_memo_after(gv.0),
            final(self).queued_funcs() == old(self).queued_funcs(),
            final(self).func_memo() == old(self).func_memo(),
            forall|kind: InternedKind|
                final(self).interned_memo(kind) == old(self).interned_memo(kind),
        decreases
                (if old(self).gmap().contains_key(gv.0) {
                    1int
                } else {
                    0int
                }),
    {
        match id_map_get(&self.transformed_global_vars, gv.0) {
            Some(cached) => {
                return *cached;
            },
            None => {},
        }
        let transformed = match id_map_get(self.resolved_global_vars, gv.0) {
            Some(new_gv) => {
                let new_gv = *new_gv;
                assert(self.gmap().contains_key(gv.0) && self.gmap()[gv.0] == new_gv);
                assert(self.is_global_var_copy(new_gv));
                assert(!self.gmap().contains_key(new_gv));
                let inner = self.transform_global_var_use(GlobalVar(new_gv), Ghost(cx));
                assert(self.has_transformed(Use::GlobalVar(GlobalVar(new_gv))));
                assert(inner.spec_apply_to(new_gv) == new_gv);
                Transformed::Changed(inner.apply_to(new_gv))
            },
            None => {
                proof {
                    let queue = self.global_var_queue@;
                    if queue.contains(gv.0) {
                        let i = choose|i: int| 0 <= i < queue.len() && queue[i] == gv.0;
                        assert(self.global_var_memo().contains_key(self.queued_global_vars()[i]));
                    }
                }
                self.global_var_queue.push_back(gv.0);
                Transformed::Unchanged
            },
        };
        let ghost mid = *self;
        id_map_insert(&mut self.transformed_global_vars, gv.0, transformed);
        proof {
            let in_dom = old(self).gmap().contains_key(gv.0);
            assert forall|u: Use| #[trigger] mid.has_transformed(u) implies self.has_transformed(
                u,
            ) by {}
            assert forall|u: Use| #[trigger] old(self).has_transformed(
                u,
            ) implies self.has_transformed(u) by {
                assert(mid.has_transformed(u));
            }
            if in_dom {
                assert(mid.inv(cx));
                assert(mid.queued_global_vars() == self.queued_global_vars());
            } else {
                assert(mid.queued_global_vars() == old(self).queued_global_vars().push(gv.0));
                assert(mid.global_var_memo() == old(self).global_var_memo());
            }
            assert(self.func_memo() == mid.func_memo());
            assert(self.queued_funcs() == mid.queued_funcs());
            assert(self.interned_memo(InternedKind::Type) == mid.interned_memo(InternedKind::Type));
            assert(self.interned_memo(InternedKind::Const) == mid.interned_memo(
                InternedKind::Const,
            ));
            assert(self.interned_memo(InternedKind::DataInstForm) == mid.interned_memo(
                InternedKind::DataInstForm,
            ));
            if in_dom {
                self.lemma_memo_kept(&mid, cx, InternedKind::Type);
                self.lemma_memo_kept(&mid, cx, InternedKind::Const);
                self.lemma_memo_kept(&mid, cx, InternedKind::DataInstForm);
            } else {
                assert(mid.func_memo() == old(self).func_memo());
                assert(mid.queued_funcs() == old(self).queued_funcs());
                self.lemma_memo_kept(old(self), cx, InternedKind::Type);
                self.lemma_memo_kept(old(self), cx, InternedKind::Const);
                self.lemma_memo_kept(old(self), cx, InternedKind::DataInstForm);
            }
            assert forall|g: usize| #[trigger] self.global_var_memo().contains_key(g) implies {
                &&& self.global_var_memo()[g].spec_apply_to(g) == subst(self.gmap(), g)
                &&& self.gmap().contains_key(g) || self.is_global_var_copy(g)
                &&& self.gmap().contains_key(g) ==> self.global_var_memo().contains_key(
                    self.gmap()[g],
                )
            } by {
                if g != gv.0 {
                    assert(mid.global_var_memo().contains_key(g));
                    if in_dom {
                        assert(mid.decl_memo_ok());
                    } else {
                        assert(old(self).global_var_memo().contains_key(g));
                    }
                }
            }
            let queue = self.queued_global_vars();
            assert forall|i: int| 0 <= i < queue.len() implies {
                &&& self.global_var_memo().contains_key(#[trigger] queue[i])
                &&& !self.gmap().contains_key(queue[i])
            } by {
                if in_dom {
                    assert(mid.global_var_memo().contains_key(mid.queued_global_vars()[i]));
                } else if i < old(self).queued_global_vars().len() {
                    assert(old(self).global_var_memo().contains_key(
                        old(self).queued_global_vars()[i],
                    ));
                }
            }
            assert(queue.no_duplicates()) by {
                if !in_dom {
                    let before = old(self).queued_global_vars();
                    assert forall|i: int, j: int|
                        0 <= i < queue.len() && 0 <= j < queue.len() && i != j implies queue[i]
                        != queue[j] by {
                        if i < before.len() && j < before.len() {
                        } else if i < before.len() {
                            assert(before.contains(before[i]));
                        } else if j < before.len() {
                            assert(before.contains(before[j]));
                        }
                    }
                }
            }
            assert forall|h: usize|
                #![trigger self.done_global_var(h)]
                #![trigger old(self).done_global_var(h)]
                !self.gmap().contains_key(h) implies (self.done_global_var(h) <==> old(
                self).done_global_var(h)) by {
                if in_dom {
                    assert(mid.done_global_var(h) <==> old(self).done_global_var(h));
                    assert(self.done_global_var(h) <==> mid.done_global_var(h));
                } else {
                    let before = old(self).queued_global_vars();
                    if before.contains(h) {
                        let i = choose|i: int| 0 <= i < before.len() && before[i] == h;
                        assert(queue[i] == h);
                    }
                    if queue.contains(h) && h != gv.0 {
                        let i = choose|i: int| 0 <= i < queue.len() && queue[i] == h;
                        assert(before[i] == h);
                    }
                    assert(queue[before.len() as int] == gv.0);
                }
            }
            assert forall|h: usize|
                #![trigger self.done_func(h)]
                #![trigger old(self).done_func(h)]
                !self.fmap().contains_key(h) implies (self.done_func(h) <==> old(self).done_func(
                h,
            )) by {
                assert(self.done_func(h) <==> mid.done_func(h));
                if in_dom {
                    assert(mid.done_func(h) <==> old(self).done_func(h));
                } else {
                    assert(mid.done_func(h) <==> old(self).done_func(h));
                }
            }
            assert forall|f: usize| #[trigger] self.func_memo().contains_key(f) implies {
                &&& self.func_memo()[f].spec_apply_to(f) == subst(self.fmap(), f)
                &&& self.fmap().contains_key(f) || self.is_func_copy(f)
                &&& self.fmap().contains_key(f) ==> self.func_memo().contains_key(self.fmap()[f])
            } by {
                assert(mid.func_memo().contains_key(f));
                if in_dom {
                    assert(mid.decl_memo_ok());
                } else {
                    assert(old(self).func_memo().contains_key(f));
                }
            }
            assert forall|i: int| 0 <= i < self.queued_funcs().len() implies {
                &&& self.func_memo().contains_key(#[trigger] self.queued_funcs()[i])
                &&& !self.fmap().contains_key(self.queued_funcs()[i])
            } by {
                if in_dom {
                    assert(mid.func_memo().contains_key(mid.queued_funcs()[i]));
                } else {
                    assert(old(self).func_memo().contains_key(old(self).queued_funcs()[i]));
                }
            }
            assert(self.queued_funcs().no_duplicates());
            assert(self.decl_memo_ok());
            assert(self.gmap() == old(self).gmap());
            assert(self.fmap() == old(self).fmap());
            assert(self.origin() == old(self).origin());
            assert(self.merged() == old(self).merged());
            assert(self.maps_ok(cx));
            assert(self.interned_memo_ok(cx, InternedKind::Type));
            assert(self.interned_memo_ok(cx, InternedKind::Const));
            assert(self.interned_memo_ok(cx, InternedKind::DataInstForm));
        }
        transformed
    }

    /// What rewriting a reference to the function `h` gives: the
    /// result kept for it where there is one; else its copy where it has
    /// one; else that it stays.
    pub open spec fn func_result(&self, h: usize) -> Transformed {
        if self.func_memo().contains_key(h) {
            self.func_memo()[h]
        } else if self.fmap().contains_key(h) {
            Transformed::Changed(self.fmap()[h])
        } else {
            Transformed::Unchanged
        }
    }

    /// The queue of functions after a reference to `h` was rewritten:
    /// as it was where a result was kept for `h`; else with the copy of `h`
    /// at the back, unless a result was kept for the copy; else, where `h`
    /// has no copy, with `h` at the back.
    pub open spec fn func_queue_after(&self, h: usize) -> Seq<usize> {
        if self.func_memo().contains_key(h) {
            self.queued_funcs()
        } else if self.fmap().contains_key(h) {
            if self.func_memo().contains_key(self.fmap()[h]) {
                self.queued_funcs()
            } else {
                self.queued_funcs().push(self.fmap()[h])
            }
        } else {
            self.queued_funcs().push(h)
        }
    }

    /// The results kept for functions after a reference to `h` was
    /// rewritten: as they were where one was kept for `h`; else with the
    /// result for `h` added, and with it, where `h` has a copy for which
    /// none was kept, that the copy stays.
    pub open spec fn func_memo_after(&self, h: usize) -> Map<usize, Transformed> {
        if self.func_memo().contains_key(h) {
            self.func_memo()
        } else if self.fmap().contains_key(h) {
            let copy = self.fmap()[h];
            if self.func_memo().contains_key(copy) {
                self.func_memo().insert(h, Transformed::Changed(copy))
            } else {
                self.func_memo().insert(copy, Transformed::Unchanged).insert(
                    h,
                    Transformed::Changed(copy),
                )
            }
        } else {
            self.func_memo().insert(h, Transformed::Unchanged)
        }
    }

    /// Rewrites a reference to a function: to its copy where it has
    /// one; else it stays, and the function is queued.
    pub(crate) fn transform_func_use(
        &mut self,
        func: Func,
        Ghost(cx): Ghost<ContextView>,
    ) -> (transformed: Transformed)
        requires
            old(self).inv(cx),
            old(self).fmap().contains_key(func.0) || old(self).is_func_copy(func.0),
        ensures
            final(self).inv(cx),
            final(self).grew_from(old(self)),
            final(self).has_transformed(Use::Func(func)),
            transformed.spec_apply_to(func.0) == subst(old(self).fmap(), func.0),
            transformed == old(self).func_result(func.0),
            final(self).queued_funcs() == old(self).func_queue_after(func.0),
            final(self).func_memo() == old(self).func_memo_after(func.0),
            final(self).queued_global_vars() == old(self).queued_global_vars(),
            final(self).global_var_memo() == old(self).global_var_memo(),
            forall|kind: InternedKind|
                final(self).interned_memo(kind) == old(self).interned_memo(kind),
        decreases
                (if old(self).fmap().contains_key(func.0) {
                    1int
                } else {
                    0int
                }),
    {
        match id_map_get(&self.transformed_funcs, func.0) {
            Some(cached) => {
                return *cached;
            },
            None => {},
        }
        let transformed = match id_map_get(self.resolved_funcs, func.0) {
            Some(new_func) => {
                let new_func = *new_func;
                assert(self.fmap().contains_key(func.0) && self.fmap()[func.0] == new_func);
                assert(self.is_func_copy(new_func));
                assert(!self.fmap().contains_key(new_func));
                let inner = self.transform_func_use(Func(new_func), Ghost(cx));
                assert(self.has_transformed(Use::Func(Func(new_func))));
                assert(inner.spec_apply_to(new_func) == new_func);
                Transformed::Changed(inner.apply_to(new_func))
            },
            None => {
                proof {
                    let queue = self.func_queue@;
                    if queue.contains(func.0) {
                        let i = choose|i: int| 0 <= i < queue.len() && queue[i] == func.0;
                        assert(self.func_memo().contains_key(self.queued_funcs()[i]));
                    }
                }
                self.func_queue.push_back(func.0);
                Transformed::Unchanged
            },
        };
        let ghost mid = *self;
        id_map_insert(&mut self.transformed_funcs, func.0, transformed);
        proof {
            let in_dom = old(self).fmap().contains_key(func.0);
            assert forall|u: Use| #[trigger] mid.has_transformed(u) implies self.has_transformed(
                u,
            ) by {}
            assert forall|u: Use| #[trigger] old(self).has_transformed(
                u,
            ) implies self.has_transformed(u) by {
                assert(mid.has_transformed(u));
            }
            if in_dom {
                assert(mid.inv(cx));
                assert(mid.queued_funcs() == self.queued_funcs());
            } else {
                assert(mid.queued_funcs() == old(self).queued_funcs().push(func.0));
                assert(mid.func_memo() == old(self).func_memo());
            }
            assert(self.global_var_memo() == mid.global_var_memo());
            assert(self.queued_global_vars() == mid.queued_global_vars());
            assert(self.interned_memo(InternedKind::Type) == mid.interned_memo(InternedKind::Type));
            assert(self.interned_memo(InternedKind::Const) == mid.interned_memo(
                InternedKind::Const,
            ));
            assert(self.interned_memo(InternedKind::DataInstForm) == mid.interned_memo(
                InternedKind::DataInstForm,
            ));
            if in_dom {
                self.lemma_memo_kept(&mid, cx, InternedKind::Type);
                self.lemma_memo_kept(&mid, cx, InternedKind::Const);
                self.lemma_memo_kept(&mid, cx, InternedKind::DataInstForm);
            } else {
                assert(mid.global_var_memo() == old(self).global_var_memo());
                assert(mid.queued_global_vars() == old(self).queued_global_vars());
                self.lemma_memo_kept(old(self), cx, InternedKind::Type);
                self.lemma_memo_kept(old(self), cx, InternedKind::Const);
                self.lemma_memo_kept(old(self), cx, InternedKind::DataInstForm);
            }
            assert forall|f: usize| #[trigger] self.func_memo().contains_key(f) implies {
                &&& self.func_memo()[f].spec_apply_to(f) == subst(self.fmap(), f)
                &&& self.fmap().contains_key(f) || self.is_func_copy(f)
                &&& self.fmap().contains_key(f) ==> self.func_memo().contains_key(
                    self.fmap()[f],
                )
            } by {
                if f != func.0 {
                    assert(mid.func_memo().contains_key(f));
                    if in_dom {
                        assert(mid.decl_memo_ok());
                    } else {
                        assert(old(self).func_memo().contains_key(f));
                    }
                }
            }
            let queue = self.queued_funcs();
            assert forall|i: int| 0 <= i < queue.len() implies {
                &&& self.func_memo().contains_key(#[trigger] queue[i])
                &&& !self.fmap().contains_key(queue[i])
            } by {
                if in_dom {
                    assert(mid.func_memo().contains_key(mid.queued_funcs()[i]));
                } else if i < old(self).queued_funcs().len() {
                    assert(old(self).func_memo().contains_key(
                        old(self).queued_funcs()[i],
                    ));
                }
            }
            assert(queue.no_duplicates()) by {
                if !in_dom {
                    let before = old(self).queued_funcs();
                    assert forall|i: int, j: int|
                        0 <= i < queue.len() && 0 <= j < queue.len() && i != j implies queue[i]
                        != queue[j] by {
                        if i < before.len() && j < before.len() {
                        } else if i < before.len() {
                            assert(before.contains(before[i]));
                        } else if j < before.len() {
                            assert(before.contains(before[j]));
                        }
                    }
                }
            }
            assert forall|h: usize|
                #![trigger self.done_func(h)]
                #![trigger old(self).done_func(h)]
                !self.fmap().contains_key(h) implies (self.done_func(h) <==> old(
                self).done_func(h)) by {
                if in_dom {
                    assert(mid.done_func(h) <==> old(self).done_func(h));
                    assert(self.done_func(h) <==> mid.done_func(h));
                } else {
                    let before = old(self).queued_funcs();
                    if before.contains(h) {
                        let i = choose|i: int| 0 <= i < before.len() && before[i] == h;
                        assert(queue[i] == h);
                    }
                    if queue.contains(h) && h != func.0 {
                        let i = choose|i: int| 0 <= i < queue.len() && queue[i] == h;
                        assert(before[i] == h);
                    }
                    assert(queue[before.len() as int] == func.0);
                }
            }
            assert forall|h: usize|
                #![trigger self.done_global_var(h)]
                #![trigger old(self).done_global_var(h)]
                !self.gmap().contains_key(h) implies (self.done_global_var(h) <==> old(
                self,
            ).done_global_var(h)) by {
                assert(self.done_global_var(h) <==> mid.done_global_var(h));
                if in_dom {
                    assert(mid.done_global_var(h) <==> old(self).done_global_var(h));
                } else {
                    assert(mid.done_global_var(h) <==> old(self).done_global_var(h));
                }
            }
            assert forall|g: usize| #[trigger] self.global_var_memo().contains_key(g) implies {
                &&& self.global_var_memo()[g].spec_apply_to(g) == subst(self.gmap(), g)
                &&& self.gmap().contains_key(g) || self.is_global_var_copy(g)
                &&& self.gmap().contains_key(g) ==> self.global_var_memo().contains_key(
                    self.gmap()[g],
                )
            } by {
                assert(mid.global_var_memo().contains_key(g));
                if in_dom {
                    assert(mid.decl_memo_ok());
                } else {
                    assert(old(self).global_var_memo().contains_key(g));
                }
            }
            assert forall|i: int| 0 <= i < self.queued_global_vars().len() implies {
                &&& self.global_var_memo().contains_key(#[trigger] self.queued_global_vars()[i])
                &&& !self.gmap().contains_key(self.queued_global_vars()[i])
            } by {
                if in_dom {
                    assert(mid.global_var_memo().contains_key(mid.queued_global_vars()[i]));
                } else {
                    let queued = old(self).queued_global_vars()[i];
                    assert(old(self).global_var_memo().contains_key(queued));
                }
            }
            assert(self.queued_global_vars().no_duplicates());
            assert(self.decl_memo_ok());
            assert(self.fmap() == old(self).fmap());
            assert(self.gmap() == old(self).gmap());
            assert(self.origin() == old(self).origin());
            assert(self.merged() == old(self).merged());
            assert(self.maps_ok(cx));
            assert(self.interned_memo_ok(cx, InternedKind::Type));
            assert(self.interned_memo_ok(cx, InternedKind::Const));
            assert(self.interned_memo_ok(cx, InternedKind::DataInstForm));
        }
        transformed
    }

    /// The result kept for the interned value of the given kind at `h`.
    fn memo_get(&self, kind: InternedKind, h: usize) -> (kept: Option<Transformed>)
        ensures
            kept == (if self.interned_memo(kind).contains_key(h) {
                Some(self.interned_memo(kind)[h])
            } else {
                None::<Transformed>
            }),
    {
        let found = match kind {
            InternedKind::Type => id_map_get(&self.transformed_types, h),
            InternedKind::Const => id_map_get(&self.transformed_consts, h),
            InternedKind::DataInstForm => id_map_get(&self.transformed_data_inst_forms, h),
        };
        match found {
            Some(t) => Some(*t),
            None => None,
        }
    }

    /// Keeps the result for the interned value of the given kind at `h`.
    fn memo_put(&mut self, kind: InternedKind, h: usize, transformed: Transformed)
        ensures
            final(self).interned_memo(kind) == old(self).interned_memo(kind).insert(
                h,
                transformed,
            ),
            forall|other: InternedKind|
                other != kind ==> final(self).interned_memo(other) == old(self).interned_memo(
                    other,
                ),
            final(self).gmap() == old(self).gmap(),
            final(self).fmap() == old(self).fmap(),
            final(self).origin() == old(self).origin(),
            final(self).merged() == old(self).merged(),
            final(self).global_var_memo() == old(self).global_var_memo(),
            final(self).func_memo() == old(self).func_memo(),
            final(self).queued_global_vars() == old(self).queued_global_vars(),
            final(self).queued_funcs() == old(self).queued_funcs(),
    {
        match kind {
            InternedKind::Type => {
                id_map_insert(&mut self.transformed_types, h, transformed);
            },
            InternedKind::Const => {
                id_map_insert(&mut self.transformed_consts, h, transformed);
            },
            InternedKind::DataInstForm => {
                id_map_insert(&mut self.transformed_data_inst_forms, h, transformed);
            },
        }
    }

    /// Rewrites an interned value: the definition is rebuilt with its own
    /// references rewritten and interned again. The result is kept, so that
    /// each value is rewritten once.
    fn transform_interned(
        &mut self,
        cx: &mut Context,
        kind: InternedKind,
        h: usize,
    ) -> (transformed: Transformed)
        requires
            old(self).inv(old(cx)@),
            old(self).origin().has(kind, h),
            reachable(old(self).origin(), old(self).merged(), interned_use(kind, h)),
        ensures
            final(self).inv(final(cx)@),
            final(cx)@.extends(old(cx)@),
            final(cx)@.next_global_var == old(cx)@.next_global_var,
            final(cx)@.next_func == old(cx)@.next_func,
            final(self).grew_from(old(self)),
            final(self).interned_memo(kind).contains_key(h),
            final(self).interned_memo(kind)[h] == transformed,
            interned_rewrites(
                final(cx)@,
                old(self).gmap(),
                old(self).fmap(),
                h,
                transformed.spec_apply_to(h),
            ),
            final(cx)@.has(kind, transformed.spec_apply_to(h)),
            transformed is Unchanged <==> transformed.spec_apply_to(h) == h,
            transformed is Unchanged <==> !refers_to_copied(
                final(cx)@,
                old(self).gmap(),
                old(self).fmap(),
                h,
            ),
            old(self).interned_memo(kind).contains_key(h) ==> transformed == old(
                self,
            ).interned_memo(kind)[h] && *final(self) == *old(self) && *final(cx) == *old(cx),
        decreases h, 2int,
    {
        match self.memo_get(kind, h) {
            Some(cached) => {
                proof {
                    lemma_stays_iff_nothing_copied(
                        cx@,
                        self.gmap(),
                        self.fmap(),
                        h,
                        cached.spec_apply_to(h),
                    );
                }
                return cached;
            },
            None => {},
        }
        let ghost origin = self.origin();
        let ghost merged = self.merged();
        let ghost cx0 = cx@;
        let def = cx.def_of(h).duplicate();
        proof {
            assert(cx0.interned[h as int] == origin.interned[h as int]);
            assert(def@.uses == successors(origin, merged, interned_use(kind, h)));
            assert forall|k: int| 0 <= k < def.uses@.len() implies {
                &&& reachable(origin, merged, #[trigger] def.uses@[k])
                &&& origin.use_valid(def.uses@[k])
                &&& origin.use_below(def.uses@[k], h as int)
            } by {
                let v = def.uses@[k];
                assert(successors(origin, merged, interned_use(kind, h)).contains(v));
                lemma_successor_reachable(origin, merged, interned_use(kind, h), v);
                lemma_successor_valid(origin, merged, interned_use(kind, h), v);
            }
        }
        let (new_uses, changed) = self.transform_uses(cx, &def.uses, Ghost(h));
        let ghost s1 = *self;
        let ghost cx1 = cx@;
        let ghost rewritten = new_uses@;
        let transformed = if changed {
            Transformed::Changed(cx.intern(kind, Def { data: def.data, uses: new_uses }))
        } else {
            Transformed::Unchanged
        };
        let ghost cx2 = cx@;
        self.memo_put(kind, h, transformed);
        proof {
            let to = transformed.spec_apply_to(h);
            assert(cx2.interned[h as int] == cx0.interned[h as int]);
            assert(cx1.interned[h as int] == cx0.interned[h as int]);
            if changed {
                // The value rewritten differs from the value, so it stands elsewhere.
                assert(cx2.interned[to as int].1.uses == rewritten);
                assert(to != h);
                assert forall|k: int|
                    0 <= k < cx2.interned[h as int].1.uses.len() implies use_rewrites(
                    cx2,
                    self.gmap(),
                    self.fmap(),
                    cx2.interned[h as int].1.uses[k],
                    #[trigger] cx2.interned[to as int].1.uses[k],
                    h,
                ) by {
                    lemma_use_rewrites_stable(
                        cx1,
                        cx2,
                        self.gmap(),
                        self.fmap(),
                        def.uses@[k],
                        rewritten[k],
                        h,
                        h,
                    );
                }
            } else {
                assert(rewritten == def.uses@);
                assert forall|k: int|
                    0 <= k < cx2.interned[h as int].1.uses.len() implies use_rewrites(
                    cx2,
                    self.gmap(),
                    self.fmap(),
                    cx2.interned[h as int].1.uses[k],
                    #[trigger] cx2.interned[to as int].1.uses[k],
                    h,
                ) by {
                    assert(use_rewrites(
                        cx1,
                        self.gmap(),
                        self.fmap(),
                        def.uses@[k],
                        rewritten[k],
                        h,
                    ));
                }
            }
            assert(interned_rewrites(cx2, self.gmap(), self.fmap(), h, to));
            lemma_stays_iff_nothing_copied(cx2, self.gmap(), self.fmap(), h, to);
            s1.lemma_inv_extends(cx1, cx2);
            assert forall|u: Use| #[trigger] s1.has_transformed(u) implies self.has_transformed(
                u,
            ) by {
                match u {
                    Use::Type(t) => {
                        if kind != InternedKind::Type {
                            assert(self.interned_memo(InternedKind::Type) == s1.interned_memo(
                                InternedKind::Type,
                            ));
                        }
                    },
                    Use::Const(c) => {
                        if kind != InternedKind::Const {
                            assert(self.interned_memo(InternedKind::Const) == s1.interned_memo(
                                InternedKind::Const,
                            ));
                        }
                    },
                    Use::DataInstForm(f) => {
                        if kind != InternedKind::DataInstForm {
                            assert(self.interned_memo(InternedKind::DataInstForm)
                                == s1.interned_memo(InternedKind::DataInstForm));
                        }
                    },
                    _ => {},
                }
            }
            assert forall|other: InternedKind| self.interned_memo_ok(cx2, other) by {
                if other != kind {
                    assert(s1.interned_memo_ok(cx2, other));
                    self.lemma_memo_kept(&s1, cx2, other);
                } else {
                    assert(s1.interned_memo_ok(cx2, kind));
                    assert forall|x: usize| #[trigger]
                        self.interned_memo(kind).contains_key(x) implies {
                        &&& x < self.origin().interned.len()
                        &&& x < cx2.interned.len()
                        &&& cx2.interned[x as int].0 == kind
                        &&& reachable(self.origin(), self.merged(), interned_use(kind, x))
                        &&& interned_rewrites(
                            cx2,
                            self.gmap(),
                            self.fmap(),
                            x,
                            self.interned_memo(kind)[x].spec_apply_to(x),
                        )
                        &&& self.interned_memo(kind)[x] is Unchanged <==> self.interned_memo(
                            kind,
                        )[x].spec_apply_to(x) == x
                        &&& forall|k: int|
                            0 <= k < cx2.interned[x as int].1.uses.len() ==> self.has_transformed(
                                #[trigger] cx2.interned[x as int].1.uses[k],
                            )
                    } by {
                        let uses = cx2.interned[x as int].1.uses;
                        if x != h {
                            assert(s1.interned_memo(kind).contains_key(x));
                            assert forall|k: int|
                                0 <= k < uses.len() implies self.has_transformed(
                                #[trigger] uses[k],
                            ) by {
                                assert(s1.has_transformed(uses[k]));
                            }
                        } else {
                            assert forall|k: int|
                                0 <= k < uses.len() implies self.has_transformed(
                                #[trigger] uses[k],
                            ) by {
                                assert(s1.has_transformed(def.uses@[k]));
                            }
                        }
                    }
                }
            }
            assert(self.interned_memo_ok(cx2, InternedKind::Type));
            assert(self.interned_memo_ok(cx2, InternedKind::Const));
            assert(self.interned_memo_ok(cx2, InternedKind::DataInstForm));
            assert(s1.decl_memo_ok());
            assert(self.decl_memo_ok());
            assert(s1.maps_ok(cx2));
            assert(self.maps_ok(cx2));
            assert(self.grew_from(&s1)) by {
                assert forall|x: usize|
                    #![trigger self.done_global_var(x)]
                    #![trigger s1.done_global_var(x)]
                    !self.gmap().contains_key(x) implies (self.done_global_var(x)
                    <==> s1.done_global_var(x)) by {}
                assert forall|x: usize|
                    #![trigger self.done_func(x)]
                    #![trigger s1.done_func(x)]
                    !self.fmap().contains_key(x) implies (self.done_func(x) <==> s1.done_func(
                    x,
                )) by {}
            }
            self.lemma_grew_trans(&s1, old(self));
        }
        transformed
    }

    /// Rewrites each reference of a list. Returns the rewritten list, and
    /// whether it differs from the list given.
    pub(crate) fn transform_uses(
        &mut self,
        cx: &mut Context,
        uses: &Vec<Use>,
        Ghost(bound): Ghost<usize>,
    ) -> (r: (Vec<Use>, bool))
        requires
            old(self).inv(old(cx)@),
            forall|k: int|
                0 <= k < uses@.len() ==> {
                    &&& reachable(old(self).origin(), old(self).merged(), #[trigger] uses@[k])
                    &&& old(self).origin().use_valid(uses@[k])
                    &&& old(self).origin().use_below(uses@[k], bound as int)
                },
        ensures
            final(self).inv(final(cx)@),
            final(cx)@.extends(old(cx)@),
            final(cx)@.next_global_var == old(cx)@.next_global_var,
            final(cx)@.next_func == old(cx)@.next_func,
            final(self).grew_from(old(self)),
            r.0@.len() == uses@.len(),
            forall|k: int|
                0 <= k < uses@.len() ==> use_rewrites(
                    final(cx)@,
                    old(self).gmap(),
                    old(self).fmap(),
                    uses@[k],
                    #[trigger] r.0@[k],
                    bound,
                ),
            forall|k: int|
                0 <= k < uses@.len() ==> final(self).has_transformed(#[trigger] uses@[k]),
            forall|k: int| 0 <= k < uses@.len() ==> final(cx)@.use_valid(#[trigger] r.0@[k]),
            r.1 == (r.0@ != uses@),
        decreases bound, 1int,
    {
        let mut new_uses: Vec<Use> = Vec::new();
        let mut changed = false;
        let mut i: usize = 0;
        assert(new_uses@ =~= uses@.take(0));
        while i < uses.len()
            invariant
                i <= uses@.len(),
                new_uses@.len() == i,
                self.inv(cx@),
                cx@.extends(old(cx)@),
                cx@.next_global_var == old(cx)@.next_global_var,
                cx@.next_func == old(cx)@.next_func,
                self.grew_from(old(self)),
                forall|k: int|
                    0 <= k < uses@.len() ==> {
                        &&& reachable(old(self).origin(), old(self).merged(), #[trigger] uses@[k])
                        &&& old(self).origin().use_valid(uses@[k])
                        &&& old(self).origin().use_below(uses@[k], bound as int)
                    },
                forall|k: int|
                    0 <= k < i ==> use_rewrites(
                        cx@,
                        old(self).gmap(),
                        old(self).fmap(),
                        uses@[k],
                        #[trigger] new_uses@[k],
                        bound,
                    ),
                forall|k: int| 0 <= k < i ==> self.has_transformed(#[trigger] uses@[k]),
                forall|k: int| 0 <= k < i ==> cx@.use_valid(#[trigger] new_uses@[k]),
                changed == (new_uses@ != uses@.take(i as int)),
            decreases uses@.len() - i,
        {
            let ghost before = *self;
            let ghost cx_before = cx@;
            let ghost done = new_uses@;
            let u = uses[i];
            let w = self.transform_use(cx, u, Ghost(bound));
            new_uses.push(w);
            if w != u {
                changed = true;
            }
            proof {
                self.lemma_grew_trans(&before, old(self));
                let now = new_uses@;
                assert forall|k: int| 0 <= k < i + 1 implies self.has_transformed(
                    #[trigger] uses@[k],
                ) by {
                    if k < i {
                        assert(before.has_transformed(uses@[k]));
                    }
                }
                assert forall|k: int| 0 <= k < i + 1 implies {
                    &&& use_rewrites(
                        cx@,
                        old(self).gmap(),
                        old(self).fmap(),
                        uses@[k],
                        #[trigger] now[k],
                        bound,
                    )
                    &&& cx@.use_valid(now[k])
                } by {
                    if k < i {
                        assert(now[k] == done[k]);
                        assert(use_rewrites(
                            cx_before,
                            old(self).gmap(),
                            old(self).fmap(),
                            uses@[k],
                            done[k],
                            bound,
                        ));
                        lemma_use_rewrites_stable(
                            cx_before,
                            cx@,
                            old(self).gmap(),
                            old(self).fmap(),
                            uses@[k],
                            done[k],
                            bound,
                            bound,
                        );
                        lemma_use_valid_extends(cx_before, cx@, done[k]);
                        assert(before.has_transformed(uses@[k]));
                    }
                }
                let upto = uses@.take(i + 1);
                if done != uses@.take(i as int) {
                    if new_uses@ == upto {
                        assert(done =~= uses@.take(i as int)) by {
                            assert forall|k: int| 0 <= k < i implies done[k] == uses@.take(
                                i as int,
                            )[k] by {
                                assert(new_uses@[k] == upto[k]);
                            }
                        }
                    }
                } else if w == u {
                    assert(new_uses@ =~= upto);
                } else {
                    assert(new_uses@[i as int] != upto[i as int]);
                }
            }
            i += 1;
        }
        proof {
            assert(uses@.take(uses@.len() as int) =~= uses@);
        }
        (new_uses, changed)
    }

    /// Rewrites one reference.
    pub(crate) fn transform_use(
        &mut self,
        cx: &mut Context,
        u: Use,
        Ghost(bound): Ghost<usize>,
    ) -> (w: Use)
        requires
            old(self).inv(old(cx)@),
            reachable(old(self).origin(), old(self).merged(), u),
            old(self).origin().use_valid(u),
            old(self).origin().use_below(u, bound as int),
        ensures
            final(self).inv(final(cx)@),
            final(cx)@.extends(old(cx)@),
            final(cx)@.next_global_var == old(cx)@.next_global_var,
            final(cx)@.next_func == old(cx)@.next_func,
            final(self).grew_from(old(self)),
            use_rewrites(final(cx)@, old(self).gmap(), old(self).fmap(), u, w, bound),
            final(self).has_transformed(u),
            final(cx)@.use_valid(w),
        decreases bound, 0int,
    {
        match u {
            Use::Type(t) => Use::Type(Type(self.transform_type_use(cx, t).apply_to(t.0))),
            Use::Const(c) => Use::Const(Const(self.transform_const_use(cx, c).apply_to(c.0))),
            Use::DataInstForm(f) => Use::DataInstForm(
                DataInstForm(self.transform_data_inst_form_use(cx, f).apply_to(f.0)),
            ),
            Use::GlobalVar(gv) => {
                let transformed = self.transform_global_var_use(gv, Ghost(cx@));
                Use::GlobalVar(GlobalVar(transformed.apply_to(gv.0)))
            },
            Use::Func(func) => {
                let transformed = self.transform_func_use(func, Ghost(cx@));
                Use::Func(Func(transformed.apply_to(func.0)))
            },
        }
    }

    /// Rewrites a reference to a type.
    pub(crate) fn transform_type_use(&mut self, cx: &mut Context, ty: Type) -> (transformed:
        Transformed)
        requires
            old(self).inv(old(cx)@),
            old(self).origin().use_valid(Use::Type(ty)),
            reachable(old(self).origin(), old(self).merged(), Use::Type(ty)),
        ensures
            final(self).inv(final(cx)@),
            final(cx)@.extends(old(cx)@),
            final(cx)@.next_global_var == old(cx)@.next_global_var,
            final(cx)@.next_func == old(cx)@.next_func,
            final(self).grew_from(old(self)),
            final(self).has_transformed(Use::Type(ty)),
            final(self).interned_memo(InternedKind::Type)[ty.0] == transformed,
            transformed is Unchanged <==> transformed.spec_apply_to(ty.0) == ty.0,
            transformed is Unchanged <==> !refers_to_copied(
                final(cx)@,
                old(self).gmap(),
                old(self).fmap(),
                ty.0,
            ),
            old(self).interned_memo(InternedKind::Type).contains_key(ty.0) ==> transformed == old(
                self,
            ).interned_memo(InternedKind::Type)[ty.0] && *final(self) == *old(self) && *final(cx)
                == *old(cx),
            interned_rewrites(
                final(cx)@,
                old(self).gmap(),
                old(self).fmap(),
                ty.0,
                transformed.spec_apply_to(ty.0),
            ),
            final(cx)@.use_valid(Use::Type(Type(transformed.spec_apply_to(ty.0)))),
        decreases ty.0, 3int,
    {
        self.transform_interned(cx, InternedKind::Type, ty.0)
    }

    /// Rewrites a reference to a constant.
    pub(crate) fn transform_const_use(&mut self, cx: &mut Context, ct: Const) -> (transformed:
        Transformed)
        requires
            old(self).inv(old(cx)@),
            old(self).origin().use_valid(Use::Const(ct)),
            reachable(old(self).origin(), old(self).merged(), Use::Const(ct)),
        ensures
            final(self).inv(final(cx)@),
            final(cx)@.extends(old(cx)@),
            final(cx)@.next_global_var == old(cx)@.next_global_var,
            final(cx)@.next_func == old(cx)@.next_func,
            final(self).grew_from(old(self)),
            final(self).has_transformed(Use::Const(ct)),
            final(self).interned_memo(InternedKind::Const)[ct.0] == transformed,
            transformed is Unchanged <==> transformed.spec_apply_to(ct.0) == ct.0,
            transformed is Unchanged <==> !refers_to_copied(
                final(cx)@,
                old(self).gmap(),
                old(self).fmap(),
                ct.0,
            ),
            old(self).interned_memo(InternedKind::Const).contains_key(ct.0) ==> transformed == old(
                self,
            ).interned_memo(InternedKind::Const)[ct.0] && *final(self) == *old(self) && *final(cx)
                == *old(cx),
            interned_rewrites(
                final(cx)@,
                old(self).gmap(),
                old(self).fmap(),
                ct.0,
                transformed.spec_apply_to(ct.0),
            ),
            final(cx)@.use_valid(Use::Const(Const(transformed.spec_apply_to(ct.0)))),
        decreases ct.0, 3int,
    {
        self.transform_interned(cx, InternedKind::Const, ct.0)
    }

    /// Rewrites a reference to an instruction form.
    pub(crate) fn transform_data_inst_form_use(
        &mut self,
        cx: &mut Context,
        data_inst_form: DataInstForm,
    ) -> (transformed: Transformed)
        requires
            old(self).inv(old(cx)@),
            old(self).origin().use_valid(Use::DataInstForm(data_inst_form)),
            reachable(old(self).origin(), old(self).merged(), Use::DataInstForm(data_inst_form)),
        ensures
            final(self).inv(final(cx)@),
            final(cx)@.extends(old(cx)@),
            final(cx)@.next_global_var == old(cx)@.next_global_var,
            final(cx)@.next_func == old(cx)@.next_func,
            final(self).grew_from(old(self)),
            final(self).has_transformed(Use::DataInstForm(data_inst_form)),
            final(self).interned_memo(InternedKind::DataInstForm)[data_inst_form.0] == transformed,
            transformed is Unchanged <==> transformed.spec_apply_to(data_inst_form.0)
                == data_inst_form.0,
            transformed is Unchanged <==> !refers_to_copied(
                final(cx)@,
                old(self).gmap(),
                old(self).fmap(),
                data_inst_form.0,
            ),
            old(self).interned_memo(InternedKind::DataInstForm).contains_key(data_inst_form.0)
                ==> transformed == old(self).interned_memo(
                InternedKind::DataInstForm,
            )[data_inst_form.0] && *final(self) == *old(self) && *final(cx) == *old(cx),
            interned_rewrites(
                final(cx)@,
                old(self).gmap(),
                old(self).fmap(),
                data_inst_form.0,
                transformed.spec_apply_to(data_inst_form.0),
            ),
            final(cx)@.use_valid(
                Use::DataInstForm(DataInstForm(transformed.spec_apply_to(data_inst_form.0))),
            ),
        decreases data_inst_form.0, 3int,
    {
        self.transform_interned(cx, InternedKind::DataInstForm, data_inst_form.0)
    }
}

} // verus!
