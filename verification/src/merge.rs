//! Merging: one module is taken into another that shares its context.
//!
//! Only what the exports of the merged module reach is taken over. Each
//! declaration reached is copied under a new handle, and every reference to it
//! is rewritten to that handle.

use crate::collect::{below, collect_closure, is_closed_in, lemma_below};
use crate::context::{lemma_use_valid_extends, Context, ContextView, InternedKind};
use crate::dialect::{DialectView, ModuleDialect};
use crate::ir::{Def, DefView, Exportee, Func, GlobalVar, Use};
use crate::module::{Module, ModuleView};
use crate::reach::{
    closed_in, is_root, lemma_closed_set_holds_reachable, lemma_reachable_valid,
    lemma_root_reachable, lemma_successor_reachable, lemma_successor_valid, reachable, successors,
};
use crate::rewrite::{
    def_rewrites, interned_rewrites, interned_use, lemma_use_rewrites_stable, subst, use_rewrites,
    DeclRewrite,
};
use crate::tables::{id_map_insert, id_map_new};
use rustc_hash::FxHashMap;
use vstd::prelude::*;
use vstd::set_lib::{lemma_len_subset, lemma_set_subset_finite};

verus! {

broadcast use vstd::std_specs::hash::group_hash_axioms;

/// Why two modules cannot be merged.
#[derive(Debug, Clone, Copy, PartialEq, Eq)]
pub enum MergeError {
    IncompatibleModuleDialects,
    MemoryModelMismatch,
    AddressingModelMismatch,
    VersionMismatch { mergee: (u8, u8), merged: (u8, u8) },
    DuplicateExportKey,
}

/// The dialect that two compatible dialects resolve to, or why they are not
/// compatible: the first one, with the capabilities and the extensions of
/// the second one added.
pub open spec fn compatible_spec(a: DialectView, b: DialectView) -> Result<
    DialectView,
    MergeError,
> {
    if a.memory_model != b.memory_model {
        Err(MergeError::MemoryModelMismatch)
    } else if a.addressing_model != b.addressing_model {
        Err(MergeError::AddressingModelMismatch)
    } else if a.version_major != b.version_major || a.version_minor != b.version_minor {
        Err(
            MergeError::VersionMismatch {
                mergee: (a.version_major, a.version_minor),
                merged: (b.version_major, b.version_minor),
            },
        )
    } else {
        Ok(
            DialectView {
                capabilities: a.capabilities.union(b.capabilities),
                extensions: a.extensions.union(b.extensions),
                ..a
            },
        )
    }
}

/// Checks that two dialects are compatible and resolves them to one.
pub fn make_compatible(a: ModuleDialect, b: &ModuleDialect) -> (r: Result<
    ModuleDialect,
    MergeError,
>)
    requires
        a.wf(),
        b.wf(),
    ensures
        match r {
            Ok(resolved) => resolved.wf() && compatible_spec(a@, b@) == Ok::<
                DialectView,
                MergeError,
            >(resolved@),
            Err(e) => compatible_spec(a@, b@) == Err::<DialectView, MergeError>(e),
        },
{
    let a_dia = match a {
        ModuleDialect::Spv(a_spv) => a_spv,
    };
    let b_dia = match b {
        ModuleDialect::Spv(b_spv) => b_spv,
    };
    if a_dia.memory_model != b_dia.memory_model {
        return Err(MergeError::MemoryModelMismatch);
    }
    if a_dia.addressing_model != b_dia.addressing_model {
        return Err(MergeError::AddressingModelMismatch);
    }
    if a_dia.version_major != b_dia.version_major || a_dia.version_minor != b_dia.version_minor {
        return Err(
            MergeError::VersionMismatch {
                mergee: (a_dia.version_major, a_dia.version_minor),
                merged: (b_dia.version_major, b_dia.version_minor),
            },
        );
    }
    let mut new_dialect = a_dia;
    new_dialect.capabilities.extend(&b_dia.capabilities);
    new_dialect.extensions.extend(&b_dia.extensions);
    Ok(ModuleDialect::Spv(new_dialect))
}

/// Resolving a dialect with itself gives it back.
pub proof fn lemma_compatible_with_itself(a: DialectView)
    ensures
        compatible_spec(a, a) == Ok::<DialectView, MergeError>(a),
{
    assert(a.capabilities.union(a.capabilities) =~= a.capabilities);
    assert(a.extensions.union(a.extensions) =~= a.extensions);
}

/// Resolving the result with the second dialect once more changes nothing.
pub proof fn lemma_compatible_idempotent(a: DialectView, b: DialectView)
    requires
        compatible_spec(a, b) is Ok,
    ensures
        compatible_spec(compatible_spec(a, b)->Ok_0, b) == compatible_spec(a, b),
{
    assert(a.capabilities.union(b.capabilities).union(b.capabilities) =~= a.capabilities.union(
        b.capabilities,
    ));
    assert(a.extensions.union(b.extensions).union(b.extensions) =~= a.extensions.union(
        b.extensions,
    ));
}

/// Two dialects are compatible in either order or in neither, and the
/// capabilities and extensions of the result do not depend on the order.
pub proof fn lemma_compatible_either_order(a: DialectView, b: DialectView)
    ensures
        compatible_spec(a, b) is Ok <==> compatible_spec(b, a) is Ok,
        compatible_spec(a, b) is Ok ==> compatible_spec(a, b)->Ok_0.capabilities
            == compatible_spec(b, a)->Ok_0.capabilities && compatible_spec(a, b)->Ok_0.extensions
            == compatible_spec(b, a)->Ok_0.extensions,
{
    assert(a.capabilities.union(b.capabilities) =~= b.capabilities.union(a.capabilities));
    assert(a.extensions.union(b.extensions) =~= b.extensions.union(a.extensions));
}

/// Copies the global variables listed from `merged` into `mergee`, each
/// under a new handle. Returns the map from the old handles to the new ones.
fn copy_global_vars(
    cx: &mut Context,
    mergee: &mut Module,
    merged: &Module,
    found: &Vec<usize>,
) -> (resolved: FxHashMap<usize, usize>)
    requires
        old(cx).wf(),
        old(mergee).wf(),
        old(mergee)@.valid_in(old(cx)@),
        merged@.valid_in(old(cx)@),
        found@.no_duplicates(),
        forall|i: int|
            0 <= i < found@.len() ==> merged@.global_vars.contains_key(#[trigger] found@[i]),
        old(cx)@.next_global_var + found@.len() <= usize::MAX,
    ensures
        final(cx)@ == (ContextView {
            next_global_var: (old(cx)@.next_global_var + found@.len()) as usize,
            ..old(cx)@
        }),
        final(mergee).wf(),
        final(mergee)@.valid_in(final(cx)@),
        final(mergee)@.funcs == old(mergee)@.funcs,
        final(mergee)@.exports == old(mergee)@.exports,
        final(mergee)@.dialect == old(mergee)@.dialect,
        final(mergee)@.top_level == old(mergee)@.top_level,
        resolved@.dom() == found@.to_set(),
        forall|i: int|
            0 <= i < found@.len() ==> resolved@[#[trigger] found@[i]] == old(cx)@.next_global_var
                + i,
        forall|h: usize| #[trigger]
            final(mergee)@.global_vars.contains_key(h) <==> old(mergee)@.global_vars.contains_key(
                h,
            ) || old(cx)@.next_global_var <= h < old(cx)@.next_global_var + found@.len(),
        forall|h: usize| #[trigger]
            old(mergee)@.global_vars.contains_key(h) ==> final(mergee)@.global_vars[h] == old(
                mergee,
            )@.global_vars[h],
        forall|i: int|
            0 <= i < found@.len() ==> final(mergee)@.global_vars[(old(cx)@.next_global_var
                + i) as usize] == merged@.global_vars[#[trigger] found@[i]],
{
    let ghost origin = cx@;
    let ghost before = mergee@;
    let mut resolved: FxHashMap<usize, usize> = id_map_new();
    let mut i: usize = 0;
    proof {
        assert(resolved@.dom() =~= found@.take(0).to_set());
    }
    while i < found.len()
        invariant
            i <= found@.len(),
            origin == old(cx)@,
            before == old(mergee)@,
            origin.wf(),
            merged@.valid_in(origin),
            before.valid_in(origin),
            found@.no_duplicates(),
            forall|k: int|
                0 <= k < found@.len() ==> merged@.global_vars.contains_key(#[trigger] found@[k]),
            origin.next_global_var + found@.len() <= usize::MAX,
            cx@ == (ContextView {
                next_global_var: (origin.next_global_var + i) as usize,
                ..origin
            }),
            mergee.wf(),
            mergee@.valid_in(cx@),
            mergee@.funcs == before.funcs,
            mergee@.exports == before.exports,
            mergee@.dialect == before.dialect,
            mergee@.top_level == before.top_level,
            resolved@.dom() == found@.take(i as int).to_set(),
            forall|k: int|
                0 <= k < i ==> resolved@[#[trigger] found@[k]] == origin.next_global_var + k,
            forall|h: usize| #[trigger]
                mergee@.global_vars.contains_key(h) <==> before.global_vars.contains_key(h)
                    || origin.next_global_var <= h < origin.next_global_var + i,
            forall|h: usize| #[trigger]
                before.global_vars.contains_key(h) ==> mergee@.global_vars[h]
                    == before.global_vars[h],
            forall|k: int|
                0 <= k < i ==> mergee@.global_vars[(origin.next_global_var + k) as usize]
                    == merged@.global_vars[#[trigger] found@[k]],
        decreases found@.len() - i,
    {
        let gv = found[i];
        let def = merged.global_var(GlobalVar(gv)).unwrap().duplicate();
        proof {
            assert(merged@.global_vars.contains_key(found@[i as int]));
            assert(origin.def_valid(merged@.global_vars[gv]));
            assert forall|k: int| 0 <= k < def@.uses.len() implies cx@.use_valid(
                #[trigger] def@.uses[k],
            ) by {
                lemma_use_valid_extends(origin, cx@, def@.uses[k]);
            }
        }
        let ghost resolved_before = resolved@;
        let new_gv = mergee.define_global_var(cx, def);
        id_map_insert(&mut resolved, gv, new_gv.0);
        proof {
            found@.take(i as int).lemma_push_to_set_commute(gv);
            assert(found@.take(i as int).push(gv) =~= found@.take(i + 1));
            assert forall|k: int| 0 <= k < i + 1 implies resolved@[#[trigger] found@[k]]
                == origin.next_global_var + k by {
                if k < i {
                    assert(found@[k] != found@[i as int]);
                    assert(resolved_before[found@[k]] == origin.next_global_var + k);
                }
            }
            assert forall|h: usize| #[trigger]
                before.global_vars.contains_key(h) implies mergee@.global_vars[h]
                == before.global_vars[h] by {
                assert(h < origin.next_global_var);
            }
        }
        i += 1;
    }
    proof {
        assert(found@.take(found@.len() as int) =~= found@);
    }
    resolved
}

/// Copies the functions listed from `merged` into `mergee`, each
/// under a new handle. Returns the map from the old handles to the new ones.
fn copy_funcs(
    cx: &mut Context,
    mergee: &mut Module,
    merged: &Module,
    found: &Vec<usize>,
) -> (resolved: FxHashMap<usize, usize>)
    requires
        old(cx).wf(),
        old(mergee).wf(),
        old(mergee)@.valid_in(old(cx)@),
        merged@.valid_in(old(cx)@),
        found@.no_duplicates(),
        forall|i: int| 0 <= i < found@.len() ==> merged@.funcs.contains_key(#[trigger] found@[i]),
        old(cx)@.next_func + found@.len() <= usize::MAX,
    ensures
        final(cx)@ == (ContextView {
            next_func: (old(cx)@.next_func + found@.len()) as usize,
            ..old(cx)@
        }),
        final(mergee).wf(),
        final(mergee)@.valid_in(final(cx)@),
        final(mergee)@.global_vars == old(mergee)@.global_vars,
        final(mergee)@.exports == old(mergee)@.exports,
        final(mergee)@.dialect == old(mergee)@.dialect,
        final(mergee)@.top_level == old(mergee)@.top_level,
        resolved@.dom() == found@.to_set(),
        forall|i: int|
            0 <= i < found@.len() ==> resolved@[#[trigger] found@[i]] == old(cx)@.next_func
                + i,
        forall|h: usize| #[trigger]
            final(mergee)@.funcs.contains_key(h) <==> old(mergee)@.funcs.contains_key(
                h,
            ) || old(cx)@.next_func <= h < old(cx)@.next_func + found@.len(),
        forall|h: usize| #[trigger]
            old(mergee)@.funcs.contains_key(h) ==> final(mergee)@.funcs[h] == old(
                mergee,
            )@.funcs[h],
        forall|i: int|
            0 <= i < found@.len() ==> final(mergee)@.funcs[(old(cx)@.next_func
                + i) as usize] == merged@.funcs[#[trigger] found@[i]],
{
    let ghost origin = cx@;
    let ghost before = mergee@;
    let mut resolved: FxHashMap<usize, usize> = id_map_new();
    let mut i: usize = 0;
    proof {
        assert(resolved@.dom() =~= found@.take(0).to_set());
    }
    while i < found.len()
        invariant
            i <= found@.len(),
            origin == old(cx)@,
            before == old(mergee)@,
            origin.wf(),
            merged@.valid_in(origin),
            before.valid_in(origin),
            found@.no_duplicates(),
            forall|k: int|
                0 <= k < found@.len() ==> merged@.funcs.contains_key(#[trigger] found@[k]),
            origin.next_func + found@.len() <= usize::MAX,
            cx@ == (ContextView {
                next_func: (origin.next_func + i) as usize,
                ..origin
            }),
            mergee.wf(),
            mergee@.valid_in(cx@),
            mergee@.global_vars == before.global_vars,
            mergee@.exports == before.exports,
            mergee@.dialect == before.dialect,
            mergee@.top_level == before.top_level,
            resolved@.dom() == found@.take(i as int).to_set(),
            forall|k: int|
                0 <= k < i ==> resolved@[#[trigger] found@[k]] == origin.next_func + k,
            forall|h: usize| #[trigger]
                mergee@.funcs.contains_key(h) <==> before.funcs.contains_key(h)
                    || origin.next_func <= h < origin.next_func + i,
            forall|h: usize| #[trigger]
                before.funcs.contains_key(h) ==> mergee@.funcs[h]
                    == before.funcs[h],
            forall|k: int|
                0 <= k < i ==> mergee@.funcs[(origin.next_func + k) as usize]
                    == merged@.funcs[#[trigger] found@[k]],
        decreases found@.len() - i,
    {
        let func = found[i];
        let def = merged.func(Func(func)).unwrap().duplicate();
        proof {
            assert(merged@.funcs.contains_key(found@[i as int]));
            assert(origin.def_valid(merged@.funcs[func]));
            assert forall|k: int| 0 <= k < def@.uses.len() implies cx@.use_valid(
                #[trigger] def@.uses[k],
            ) by {
                lemma_use_valid_extends(origin, cx@, def@.uses[k]);
            }
        }
        let ghost resolved_before = resolved@;
        let new_func = mergee.define_func(cx, def);
        id_map_insert(&mut resolved, func, new_func.0);
        proof {
            found@.take(i as int).lemma_push_to_set_commute(func);
            assert(found@.take(i as int).push(func) =~= found@.take(i + 1));
            assert forall|k: int| 0 <= k < i + 1 implies resolved@[#[trigger] found@[k]]
                == origin.next_func + k by {
                if k < i {
                    assert(found@[k] != found@[i as int]);
                    assert(resolved_before[found@[k]] == origin.next_func + k);
                }
            }
            assert forall|h: usize| #[trigger]
                before.funcs.contains_key(h) implies mergee@.funcs[h]
                == before.funcs[h] by {
                assert(h < origin.next_func);
            }
        }
        i += 1;
    }
    proof {
        assert(found@.take(found@.len() as int) =~= found@);
    }
    resolved
}

/// What an export names after merging: the copy of what it named.
pub open spec fn subst_exportee(
    gmap: Map<usize, usize>,
    fmap: Map<usize, usize>,
    exportee: Exportee,
) -> Exportee {
    match exportee {
        Exportee::GlobalVar(gv) => Exportee::GlobalVar(GlobalVar(subst(gmap, gv.0))),
        Exportee::Func(func) => Exportee::Func(Func(subst(fmap, func.0))),
    }
}

/// The exports of the merged module as the destination gets them: each
/// under its key, naming the copy of what it named.
pub open spec fn rewritten_exports(
    exports: Seq<(Seq<char>, Exportee)>,
    gmap: Map<usize, usize>,
    fmap: Map<usize, usize>,
) -> Seq<(Seq<char>, Exportee)> {
    Seq::new(exports.len(), |k: int| (exports[k].0, subst_exportee(gmap, fmap, exports[k].1)))
}

/// Whether two export maps have a key in common.
pub open spec fn share_export_key(a: ModuleView, b: ModuleView) -> bool {
    exists|i: int, j: int|
        0 <= i < a.exports.len() && 0 <= j < b.exports.len() && (#[trigger] a.exports[i]).0 == (
        #[trigger] b.exports[j]).0
}

/// Whether the export of `merged` at position `j` has a key that `before`
/// has too.
pub open spec fn key_shared_at(before: ModuleView, merged: ModuleView, j: int) -> bool {
    0 <= j < merged.exports.len() && before.export_keys().contains(merged.exports[j].0)
}

/// Whether the export of `merged` at position `j` is the first with a key
/// that `before` has too.
pub open spec fn is_first_shared(before: ModuleView, merged: ModuleView, j: int) -> bool {
    key_shared_at(before, merged, j) && forall|i: int|
        0 <= i < j ==> !key_shared_at(before, merged, i)
}

/// Whether the maps send exactly the declarations that the exports of
/// `merged` reach, one to one, to handles that the context handed out since
/// it was `origin`.
pub open spec fn copies_mapped(
    origin: ContextView,
    merged: ModuleView,
    cx: ContextView,
    gmap: Map<usize, usize>,
    fmap: Map<usize, usize>,
) -> bool {
    &&& forall|g: usize|
        gmap.contains_key(g) <==> #[trigger] reachable(origin, merged, Use::GlobalVar(GlobalVar(g)))
    &&& forall|f: usize|
        fmap.contains_key(f) <==> #[trigger] reachable(origin, merged, Use::Func(Func(f)))
    &&& forall|g: usize| #[trigger]
        gmap.contains_key(g) ==> origin.next_global_var <= gmap[g] < cx.next_global_var
    &&& forall|f: usize| #[trigger]
        fmap.contains_key(f) ==> origin.next_func <= fmap[f] < cx.next_func
    &&& gmap.is_injective()
    &&& fmap.is_injective()
}

/// What a merge leaves behind that stopped at the export of `merged` at
/// position `at`, the first with a key that `before` has too: the
/// declarations of `before`, unchanged, and the copies, whose references are
/// not rewritten; the exports of `before`, then those of `merged` before
/// `at`, rewritten; and the dialect of `before`.
pub open spec fn merge_stopped(
    origin: ContextView,
    before: ModuleView,
    merged: ModuleView,
    cx: ContextView,
    after: ModuleView,
    gmap: Map<usize, usize>,
    fmap: Map<usize, usize>,
    at: int,
) -> bool {
    &&& copies_mapped(origin, merged, cx, gmap, fmap)
    &&& is_first_shared(before, merged, at)
    &&& after.global_vars.dom() == before.global_vars.dom().union(gmap.values())
    &&& after.funcs.dom() == before.funcs.dom().union(fmap.values())
    &&& forall|h: usize| #[trigger]
        before.global_vars.contains_key(h) ==> after.global_vars[h] == before.global_vars[h]
    &&& forall|h: usize| #[trigger]
        before.funcs.contains_key(h) ==> after.funcs[h] == before.funcs[h]
    &&& forall|g: usize| #[trigger]
        gmap.contains_key(g) ==> after.global_vars[gmap[g]] == merged.global_vars[g]
    &&& forall|f: usize| #[trigger]
        fmap.contains_key(f) ==> after.funcs[fmap[f]] == merged.funcs[f]
    &&& after.exports == before.exports + rewritten_exports(merged.exports.take(at), gmap, fmap)
    &&& after.dialect == before.dialect
    &&& after.top_level == before.top_level
    &&& after.context == before.context
}

/// What merging `merged` into the module `before` gives, where `gmap` and
/// `fmap` send the declarations of `merged` to their copies.
///
/// The maps hold exactly the declarations that the exports of `merged`
/// reach, and send them one to one to handles that the context handed out
/// during the merge. The result has the declarations of `before`, unchanged,
/// and for each declaration in the maps its copy, which is the declaration
/// with every reference rewritten. It has the exports of `before`, then
/// those of `merged`, rewritten. Its dialect is the two dialects resolved.
pub open spec fn merged_into(
    origin: ContextView,
    before: ModuleView,
    merged: ModuleView,
    cx: ContextView,
    after: ModuleView,
    gmap: Map<usize, usize>,
    fmap: Map<usize, usize>,
) -> bool {
    &&& copies_mapped(origin, merged, cx, gmap, fmap)
    &&& after.global_vars.dom() == before.global_vars.dom().union(gmap.values())
    &&& after.funcs.dom() == before.funcs.dom().union(fmap.values())
    &&& forall|h: usize| #[trigger]
        before.global_vars.contains_key(h) ==> after.global_vars[h] == before.global_vars[h]
    &&& forall|h: usize| #[trigger]
        before.funcs.contains_key(h) ==> after.funcs[h] == before.funcs[h]
    &&& forall|g: usize| #[trigger]
        gmap.contains_key(g) ==> def_rewrites(
            cx,
            gmap,
            fmap,
            merged.global_vars[g],
            after.global_vars[gmap[g]],
        )
    &&& forall|f: usize| #[trigger]
        fmap.contains_key(f) ==> def_rewrites(cx, gmap, fmap, merged.funcs[f], after.funcs[fmap[f]])
    &&& after.exports == before.exports + rewritten_exports(merged.exports, gmap, fmap)
    &&& compatible_spec(before.dialect, merged.dialect) == Ok::<DialectView, MergeError>(
        after.dialect,
    )
    &&& after.top_level == before.top_level
    &&& after.context == before.context
    &&& !share_export_key(before, merged)
}

/// Whether each global variable in the map has its copy in `mergee`: the
/// declaration itself while the copy is not rewritten, and the declaration
/// with every reference rewritten once it is.
spec fn global_var_copies_ok(
    rewrite: &DeclRewrite,
    cx: ContextView,
    mergee: ModuleView,
) -> bool {
    forall|g: usize| #[trigger]
        rewrite.gmap().contains_key(g) ==> {
            &&& rewrite.merged().global_vars.contains_key(g)
            &&& mergee.global_vars.contains_key(rewrite.gmap()[g])
            &&& if rewrite.done_global_var(rewrite.gmap()[g]) {
                &&& def_rewrites(
                    cx,
                    rewrite.gmap(),
                    rewrite.fmap(),
                    rewrite.merged().global_vars[g],
                    mergee.global_vars[rewrite.gmap()[g]],
                )
                &&& forall|k: int|
                    0 <= k < rewrite.merged().global_vars[g].uses.len()
                        ==> rewrite.has_transformed(
                        #[trigger] rewrite.merged().global_vars[g].uses[k],
                    )
            } else {
                mergee.global_vars[rewrite.gmap()[g]] == rewrite.merged().global_vars[g]
            }
        }
}

/// Whether each function in the map has its copy in `mergee`: the
/// declaration itself while the copy is not rewritten, and the declaration
/// with every reference rewritten once it is.
spec fn func_copies_ok(
    rewrite: &DeclRewrite,
    cx: ContextView,
    mergee: ModuleView,
) -> bool {
    forall|f: usize| #[trigger]
        rewrite.fmap().contains_key(f) ==> {
            &&& rewrite.merged().funcs.contains_key(f)
            &&& mergee.funcs.contains_key(rewrite.fmap()[f])
            &&& if rewrite.done_func(rewrite.fmap()[f]) {
                &&& def_rewrites(
                    cx,
                    rewrite.gmap(),
                    rewrite.fmap(),
                    rewrite.merged().funcs[f],
                    mergee.funcs[rewrite.fmap()[f]],
                )
                &&& forall|k: int|
                    0 <= k < rewrite.merged().funcs[f].uses.len() ==> rewrite.has_transformed(
                        #[trigger] rewrite.merged().funcs[f].uses[k],
                    )
            } else {
                mergee.funcs[rewrite.fmap()[f]] == rewrite.merged().funcs[f]
            }
        }
}

/// Whether the destination holds what it held before, unchanged, and the
/// copies, and nothing else.
spec fn frame_ok(rewrite: &DeclRewrite, before: ModuleView, mergee: ModuleView) -> bool {
    &&& forall|h: usize| #[trigger]
        mergee.global_vars.contains_key(h) <==> before.global_vars.contains_key(h)
            || rewrite.is_global_var_copy(h)
    &&& forall|h: usize| #[trigger]
        mergee.funcs.contains_key(h) <==> before.funcs.contains_key(h) || rewrite.is_func_copy(h)
    &&& forall|h: usize| #[trigger]
        before.global_vars.contains_key(h) ==> mergee.global_vars[h] == before.global_vars[h]
    &&& forall|h: usize| #[trigger]
        before.funcs.contains_key(h) ==> mergee.funcs[h] == before.funcs[h]
    &&& mergee.top_level == before.top_level
    &&& mergee.context == before.context
}

/// The state between two steps of a merge is consistent.
spec fn phase_ok(
    rewrite: &DeclRewrite,
    cx: ContextView,
    before: ModuleView,
    mergee: &Module,
) -> bool {
    &&& rewrite.inv(cx)
    &&& closed_in(rewrite.origin(), rewrite.merged())
    &&& before.valid_in(rewrite.origin())
    &&& mergee.wf()
    &&& mergee@.valid_in(cx)
    &&& global_var_copies_ok(rewrite, cx, mergee@)
    &&& func_copies_ok(rewrite, cx, mergee@)
    &&& frame_ok(rewrite, before, mergee@)
}

/// A definition that is another rewritten stays so when more is interned.
proof fn lemma_def_rewrites_stable(
    cx: ContextView,
    later: ContextView,
    gmap: Map<usize, usize>,
    fmap: Map<usize, usize>,
    from: DefView,
    to: DefView,
)
    requires
        later.extends(cx),
        later.interned.len() <= usize::MAX,
        def_rewrites(cx, gmap, fmap, from, to),
    ensures
        def_rewrites(later, gmap, fmap, from, to),
{
    assert forall|k: int| 0 <= k < from.uses.len() implies use_rewrites(
        later,
        gmap,
        fmap,
        from.uses[k],
        #[trigger] to.uses[k],
        later.interned.len() as usize,
    ) by {
        lemma_use_rewrites_stable(
            cx,
            later,
            gmap,
            fmap,
            from.uses[k],
            to.uses[k],
            cx.interned.len() as usize,
            later.interned.len() as usize,
        );
    }
}

/// A module of a context is a module of the context grown.
proof fn lemma_valid_in_extends(m: ModuleView, cx: ContextView, later: ContextView)
    requires
        m.valid_in(cx),
        later.extends(cx),
    ensures
        m.valid_in(later),
{
    assert forall|g: usize| #[trigger] m.global_vars.contains_key(g) implies g
        < later.next_global_var && later.def_valid(m.global_vars[g]) by {
        assert forall|k: int| 0 <= k < m.global_vars[g].uses.len() implies later.use_valid(
            #[trigger] m.global_vars[g].uses[k],
        ) by {
            lemma_use_valid_extends(cx, later, m.global_vars[g].uses[k]);
        }
    }
    assert forall|f: usize| #[trigger] m.funcs.contains_key(f) implies f < later.next_func
        && later.def_valid(m.funcs[f]) by {
        assert forall|k: int| 0 <= k < m.funcs[f].uses.len() implies later.use_valid(
            #[trigger] m.funcs[f].uses[k],
        ) by {
            lemma_use_valid_extends(cx, later, m.funcs[f].uses[k]);
        }
    }
    assert forall|k: int| 0 <= k < m.exports.len() implies later.use_valid(
        (#[trigger] m.exports[k]).1.spec_as_use(),
    ) by {
        lemma_use_valid_extends(cx, later, m.exports[k].1.spec_as_use());
    }
}

/// The copies of global variables stay as they are while references are
/// rewritten, as long as the destination is not touched.
proof fn lemma_global_var_copies_stable(
    earlier: &DeclRewrite,
    rewrite: &DeclRewrite,
    cx: ContextView,
    later: ContextView,
    mergee: ModuleView,
)
    requires
        earlier.inv(cx),
        rewrite.inv(later),
        rewrite.grew_from(earlier),
        later.extends(cx),
        global_var_copies_ok(earlier, cx, mergee),
    ensures
        global_var_copies_ok(rewrite, later, mergee),
{
    assert forall|g: usize| #[trigger] rewrite.gmap().contains_key(g) implies {
        &&& rewrite.merged().global_vars.contains_key(g)
        &&& mergee.global_vars.contains_key(rewrite.gmap()[g])
        &&& if rewrite.done_global_var(rewrite.gmap()[g]) {
            &&& def_rewrites(
                later,
                rewrite.gmap(),
                rewrite.fmap(),
                rewrite.merged().global_vars[g],
                mergee.global_vars[rewrite.gmap()[g]],
            )
            &&& forall|k: int|
                0 <= k < rewrite.merged().global_vars[g].uses.len() ==> rewrite.has_transformed(
                    #[trigger] rewrite.merged().global_vars[g].uses[k],
                )
        } else {
            mergee.global_vars[rewrite.gmap()[g]] == rewrite.merged().global_vars[g]
        }
    } by {
        let copy = rewrite.gmap()[g];
        assert(earlier.gmap().contains_key(g));
        assert(!rewrite.gmap().contains_key(copy));
        assert(rewrite.done_global_var(copy) <==> earlier.done_global_var(copy));
        if rewrite.done_global_var(copy) {
            lemma_def_rewrites_stable(
                cx,
                later,
                rewrite.gmap(),
                rewrite.fmap(),
                rewrite.merged().global_vars[g],
                mergee.global_vars[copy],
            );
            assert forall|k: int|
                0 <= k < rewrite.merged().global_vars[g].uses.len() implies rewrite.has_transformed(
            #[trigger] rewrite.merged().global_vars[g].uses[k]) by {
                assert(earlier.has_transformed(rewrite.merged().global_vars[g].uses[k]));
            }
        }
    }
}

/// The copies of functions stay as they are while references are
/// rewritten, as long as the destination is not touched.
proof fn lemma_func_copies_stable(
    earlier: &DeclRewrite,
    rewrite: &DeclRewrite,
    cx: ContextView,
    later: ContextView,
    mergee: ModuleView,
)
    requires
        earlier.inv(cx),
        rewrite.inv(later),
        rewrite.grew_from(earlier),
        later.extends(cx),
        func_copies_ok(earlier, cx, mergee),
    ensures
        func_copies_ok(rewrite, later, mergee),
{
    assert forall|f: usize| #[trigger] rewrite.fmap().contains_key(f) implies {
        &&& rewrite.merged().funcs.contains_key(f)
        &&& mergee.funcs.contains_key(rewrite.fmap()[f])
        &&& if rewrite.done_func(rewrite.fmap()[f]) {
            &&& def_rewrites(
                later,
                rewrite.gmap(),
                rewrite.fmap(),
                rewrite.merged().funcs[f],
                mergee.funcs[rewrite.fmap()[f]],
            )
            &&& forall|k: int|
                0 <= k < rewrite.merged().funcs[f].uses.len() ==> rewrite.has_transformed(
                    #[trigger] rewrite.merged().funcs[f].uses[k],
                )
        } else {
            mergee.funcs[rewrite.fmap()[f]] == rewrite.merged().funcs[f]
        }
    } by {
        let copy = rewrite.fmap()[f];
        assert(earlier.fmap().contains_key(f));
        assert(!rewrite.fmap().contains_key(copy));
        assert(rewrite.done_func(copy) <==> earlier.done_func(copy));
        if rewrite.done_func(copy) {
            lemma_def_rewrites_stable(
                cx,
                later,
                rewrite.gmap(),
                rewrite.fmap(),
                rewrite.merged().funcs[f],
                mergee.funcs[copy],
            );
            assert forall|k: int|
                0 <= k < rewrite.merged().funcs[f].uses.len() implies rewrite.has_transformed(
            #[trigger] rewrite.merged().funcs[f].uses[k]) by {
                assert(earlier.has_transformed(rewrite.merged().funcs[f].uses[k]));
            }
        }
    }
}

/// Rewrites, in place, the references of the copy `copy` of a global
/// variable, which was not rewritten yet and was just taken from the queue.
fn fix_global_var(
    rewrite: &mut DeclRewrite,
    cx: &mut Context,
    mergee: &mut Module,
    copy: usize,
    Ghost(before): Ghost<ModuleView>,
    Ghost(queued): Ghost<DeclRewrite>,
)
    requires
        phase_ok(&queued, old(cx)@, before, old(mergee)),
        old(rewrite).gmap() == queued.gmap(),
        old(rewrite).fmap() == queued.fmap(),
        old(rewrite).origin() == queued.origin(),
        old(rewrite).merged() == queued.merged(),
        old(rewrite).global_var_memo() == queued.global_var_memo(),
        old(rewrite).func_memo() == queued.func_memo(),
        forall|kind: InternedKind|
            old(rewrite).interned_memo(kind) == queued.interned_memo(kind),
        old(rewrite).queued_funcs() == queued.queued_funcs(),
        queued.queued_global_vars().len() > 0,
        queued.queued_global_vars()[0] == copy,
        old(rewrite).queued_global_vars() == queued.queued_global_vars().skip(1),
    ensures
        phase_ok(final(rewrite), final(cx)@, before, final(mergee)),
        final(cx)@.extends(old(cx)@),
        final(cx)@.next_global_var == old(cx)@.next_global_var,
        final(cx)@.next_func == old(cx)@.next_func,
        final(rewrite).gmap() == queued.gmap(),
        final(rewrite).fmap() == queued.fmap(),
        final(rewrite).origin() == queued.origin(),
        final(rewrite).merged() == queued.merged(),
        forall|u: Use| #[trigger] queued.has_transformed(u) ==> final(rewrite).has_transformed(u),
        final(rewrite).done_global_var(copy),
        !queued.done_global_var(copy),
        queued.is_global_var_copy(copy),
        forall|h: usize| queued.done_global_var(h) ==> #[trigger] final(rewrite).done_global_var(h),
        forall|h: usize| queued.done_func(h) ==> #[trigger] final(rewrite).done_func(h),
        final(mergee)@.exports == old(mergee)@.exports,
        final(mergee)@.dialect == old(mergee)@.dialect,
{
    let ghost cx0 = cx@;
    let ghost origin = rewrite.origin();
    let ghost merged = rewrite.merged();
    let ghost mergee0 = mergee@;
    let ghost start = *rewrite;
    proof {
        assert(queued.global_var_memo().contains_key(queued.queued_global_vars()[0]));
        assert(!queued.gmap().contains_key(copy));
        assert(queued.is_global_var_copy(copy));
    }
    let ghost source = choose|g: usize| #[trigger]
        queued.gmap().contains_key(g) && queued.gmap()[g] == copy;
    proof {
        let q = queued.queued_global_vars();
        assert(queued.gmap().contains_key(source));
        assert(q.contains(copy));
        assert(!queued.done_global_var(copy));
        assert(mergee0.global_vars[copy] == merged.global_vars[source]);
        // Taking the first entry out of the queue keeps the state consistent.
        assert forall|u: Use| start.has_transformed(u) == queued.has_transformed(u) by {}
        start.lemma_memo_kept(&queued, cx0, InternedKind::Type);
        start.lemma_memo_kept(&queued, cx0, InternedKind::Const);
        start.lemma_memo_kept(&queued, cx0, InternedKind::DataInstForm);
        assert forall|i: int| 0 <= i < start.queued_global_vars().len() implies {
            &&& start.global_var_memo().contains_key(#[trigger] start.queued_global_vars()[i])
            &&& !start.gmap().contains_key(start.queued_global_vars()[i])
        } by {
            assert(start.queued_global_vars()[i] == q[i + 1]);
        }
        assert(start.queued_global_vars().no_duplicates()) by {
            assert forall|i: int, j: int|
                0 <= i < q.skip(1).len() && 0 <= j < q.skip(1).len() && i != j implies q.skip(
                1,
            )[i] != q.skip(1)[j] by {
                assert(q[i + 1] != q[j + 1]);
            }
        }
        assert(start.decl_memo_ok());
        assert(start.maps_ok(cx0));
        assert(start.inv(cx0));
        assert forall|h: usize| h != copy implies (start.done_global_var(h)
            <==> queued.done_global_var(h)) by {
            if q.contains(h) {
                let i = choose|i: int| 0 <= i < q.len() && q[i] == h;
                assert(q.skip(1)[i - 1] == h);
            }
            if q.skip(1).contains(h) {
                let i = choose|i: int| 0 <= i < q.skip(1).len() && q.skip(1)[i] == h;
                assert(q[i + 1] == h);
            }
        }
        assert(start.done_global_var(copy)) by {
            if q.skip(1).contains(copy) {
                let i = choose|i: int| 0 <= i < q.skip(1).len() && q.skip(1)[i] == copy;
                assert(q[i + 1] == copy && q[0] == copy);
            }
        }
        assert forall|f: usize| #[trigger] start.fmap().contains_key(f) implies {
            &&& start.merged().funcs.contains_key(f)
            &&& mergee0.funcs.contains_key(start.fmap()[f])
            &&& if start.done_func(start.fmap()[f]) {
                &&& def_rewrites(
                    cx0,
                    start.gmap(),
                    start.fmap(),
                    start.merged().funcs[f],
                    mergee0.funcs[start.fmap()[f]],
                )
                &&& forall|k: int|
                    0 <= k < start.merged().funcs[f].uses.len() ==> start.has_transformed(
                        #[trigger] start.merged().funcs[f].uses[k],
                    )
            } else {
                mergee0.funcs[start.fmap()[f]] == start.merged().funcs[f]
            }
        } by {
            assert(queued.fmap().contains_key(f));
            assert(start.done_func(start.fmap()[f]) == queued.done_func(queued.fmap()[f]));
        }
    }
    let def = mergee.global_var(GlobalVar(copy)).unwrap();
    let data = def.data.clone();
    proof {
        let u = Use::GlobalVar(GlobalVar(source));
        assert(reachable(origin, merged, u));
        assert(def@.uses == successors(origin, merged, u));
        assert forall|k: int| 0 <= k < def.uses@.len() implies {
            &&& reachable(origin, merged, #[trigger] def.uses@[k])
            &&& origin.use_valid(def.uses@[k])
            &&& origin.use_below(def.uses@[k], origin.interned.len() as int)
        } by {
            let v = def.uses@[k];
            assert(successors(origin, merged, u).contains(v));
            lemma_successor_reachable(origin, merged, u, v);
            lemma_successor_valid(origin, merged, u, v);
        }
    }
    let (new_uses, _) = rewrite.transform_uses(
        cx,
        &def.uses,
        Ghost(origin.interned.len() as usize),
    );
    let ghost old_uses = def.uses@;
    let ghost mid = *rewrite;
    let new_def = Def { data, uses: new_uses };
    proof {
        lemma_func_copies_stable(&start, &mid, cx0, cx@, mergee0);
        lemma_valid_in_extends(mergee0, cx0, cx@);
        assert forall|k: int| 0 <= k < old_uses.len() implies use_rewrites(
            cx@,
            mid.gmap(),
            mid.fmap(),
            old_uses[k],
            #[trigger] new_def@.uses[k],
            cx@.interned.len() as usize,
        ) by {
            lemma_use_rewrites_stable(
                cx@,
                cx@,
                mid.gmap(),
                mid.fmap(),
                old_uses[k],
                new_def@.uses[k],
                origin.interned.len() as usize,
                cx@.interned.len() as usize,
            );
        }
        assert(def_rewrites(cx@, mid.gmap(), mid.fmap(), merged.global_vars[source], new_def@));
    }
    mergee.set_global_var(GlobalVar(copy), new_def);
    proof {
        let after = mergee@;
        assert(!mid.gmap().contains_key(copy));
        assert(mid.done_global_var(copy) <==> start.done_global_var(copy));
        assert forall|h: usize| queued.done_global_var(h) implies #[trigger] mid.done_global_var(
            h,
        ) by {
            assert(start.done_global_var(h));
            mid.lemma_done_kept(&start, h);
        }
        assert forall|h: usize| queued.done_func(h) implies #[trigger] mid.done_func(h) by {
            assert(start.done_func(h));
            mid.lemma_done_func_kept(&start, h);
        }
        assert forall|u: Use| #[trigger] queued.has_transformed(u) implies mid.has_transformed(
            u,
        ) by {
            assert(start.has_transformed(u));
        }
        assert forall|g: usize| #[trigger] mid.gmap().contains_key(g) implies {
            &&& merged.global_vars.contains_key(g)
            &&& after.global_vars.contains_key(mid.gmap()[g])
            &&& if mid.done_global_var(mid.gmap()[g]) {
                &&& def_rewrites(
                    cx@,
                    mid.gmap(),
                    mid.fmap(),
                    merged.global_vars[g],
                    after.global_vars[mid.gmap()[g]],
                )
                &&& forall|k: int|
                    0 <= k < merged.global_vars[g].uses.len() ==> mid.has_transformed(
                        #[trigger] merged.global_vars[g].uses[k],
                    )
            } else {
                after.global_vars[mid.gmap()[g]] == merged.global_vars[g]
            }
        } by {
            assert(queued.gmap().contains_key(g));
            let other = mid.gmap()[g];
            if other == copy {
                assert(g == source);
            } else {
                assert(after.global_vars[other] == mergee0.global_vars[other]);
                assert(!mid.gmap().contains_key(other));
                assert(mid.done_global_var(other) <==> start.done_global_var(other));
                assert(start.done_global_var(other) <==> queued.done_global_var(other));
                if queued.done_global_var(other) {
                    lemma_def_rewrites_stable(
                        cx0,
                        cx@,
                        mid.gmap(),
                        mid.fmap(),
                        merged.global_vars[g],
                        mergee0.global_vars[other],
                    );
                    assert forall|k: int|
                        0 <= k < merged.global_vars[g].uses.len() implies mid.has_transformed(
                        #[trigger] merged.global_vars[g].uses[k],
                    ) by {
                        assert(queued.has_transformed(merged.global_vars[g].uses[k]));
                    }
                }
            }
        }
        assert(func_copies_ok(&mid, cx@, after));
        assert forall|h: usize| #[trigger] after.global_vars.contains_key(h) implies h
            < cx@.next_global_var && cx@.def_valid(after.global_vars[h]) by {
            if h != copy {
                assert(mergee0.global_vars.contains_key(h));
            }
        }
        assert(after.valid_in(cx@));
        assert forall|h: usize| #[trigger]
            before.global_vars.contains_key(h) implies after.global_vars[h]
            == before.global_vars[h] by {
            assert(h < origin.next_global_var);
        }
        assert(frame_ok(&mid, before, after));
    }
}

/// Rewrites, in place, the references of the copy `copy` of a function,
/// which was not rewritten yet and was just taken from the queue.
fn fix_func(
    rewrite: &mut DeclRewrite,
    cx: &mut Context,
    mergee: &mut Module,
    copy: usize,
    Ghost(before): Ghost<ModuleView>,
    Ghost(queued): Ghost<DeclRewrite>,
)
    requires
        phase_ok(&queued, old(cx)@, before, old(mergee)),
        old(rewrite).fmap() == queued.fmap(),
        old(rewrite).gmap() == queued.gmap(),
        old(rewrite).origin() == queued.origin(),
        old(rewrite).merged() == queued.merged(),
        old(rewrite).func_memo() == queued.func_memo(),
        old(rewrite).global_var_memo() == queued.global_var_memo(),
        forall|kind: InternedKind|
            old(rewrite).interned_memo(kind) == queued.interned_memo(kind),
        old(rewrite).queued_global_vars() == queued.queued_global_vars(),
        queued.queued_funcs().len() > 0,
        queued.queued_funcs()[0] == copy,
        old(rewrite).queued_funcs() == queued.queued_funcs().skip(1),
    ensures
        phase_ok(final(rewrite), final(cx)@, before, final(mergee)),
        final(cx)@.extends(old(cx)@),
        final(cx)@.next_func == old(cx)@.next_func,
        final(cx)@.next_global_var == old(cx)@.next_global_var,
        final(rewrite).fmap() == queued.fmap(),
        final(rewrite).gmap() == queued.gmap(),
        final(rewrite).origin() == queued.origin(),
        final(rewrite).merged() == queued.merged(),
        forall|u: Use| #[trigger] queued.has_transformed(u) ==> final(rewrite).has_transformed(u),
        final(rewrite).done_func(copy),
        !queued.done_func(copy),
        queued.is_func_copy(copy),
        forall|h: usize| queued.done_func(h) ==> #[trigger] final(rewrite).done_func(h),
        forall|h: usize| queued.done_global_var(h) ==> #[trigger] final(rewrite).done_global_var(h),
        final(mergee)@.exports == old(mergee)@.exports,
        final(mergee)@.dialect == old(mergee)@.dialect,
{
    let ghost cx0 = cx@;
    let ghost origin = rewrite.origin();
    let ghost merged = rewrite.merged();
    let ghost mergee0 = mergee@;
    let ghost start = *rewrite;
    proof {
        assert(queued.func_memo().contains_key(queued.queued_funcs()[0]));
        assert(!queued.fmap().contains_key(copy));
        assert(queued.is_func_copy(copy));
    }
    let ghost source = choose|f: usize| #[trigger]
        queued.fmap().contains_key(f) && queued.fmap()[f] == copy;
    proof {
        let q = queued.queued_funcs();
        assert(queued.fmap().contains_key(source));
        assert(q.contains(copy));
        assert(!queued.done_func(copy));
        assert(mergee0.funcs[copy] == merged.funcs[source]);
        // Taking the first entry out of the queue keeps the state consistent.
        assert forall|u: Use| start.has_transformed(u) == queued.has_transformed(u) by {}
        start.lemma_memo_kept(&queued, cx0, InternedKind::Type);
        start.lemma_memo_kept(&queued, cx0, InternedKind::Const);
        start.lemma_memo_kept(&queued, cx0, InternedKind::DataInstForm);
        assert forall|i: int| 0 <= i < start.queued_funcs().len() implies {
            &&& start.func_memo().contains_key(#[trigger] start.queued_funcs()[i])
            &&& !start.fmap().contains_key(start.queued_funcs()[i])
        } by {
            assert(start.queued_funcs()[i] == q[i + 1]);
        }
        assert(start.queued_funcs().no_duplicates()) by {
            assert forall|i: int, j: int|
                0 <= i < q.skip(1).len() && 0 <= j < q.skip(1).len() && i != j implies q.skip(
                1,
            )[i] != q.skip(1)[j] by {
                assert(q[i + 1] != q[j + 1]);
            }
        }
        assert(start.decl_memo_ok());
        assert(start.maps_ok(cx0));
        assert(start.inv(cx0));
        assert forall|h: usize| h != copy implies (start.done_func(h)
            <==> queued.done_func(h)) by {
            if q.contains(h) {
                let i = choose|i: int| 0 <= i < q.len() && q[i] == h;
                assert(q.skip(1)[i - 1] == h);
            }
            if q.skip(1).contains(h) {
                let i = choose|i: int| 0 <= i < q.skip(1).len() && q.skip(1)[i] == h;
                assert(q[i + 1] == h);
            }
        }
        assert(start.done_func(copy)) by {
            if q.skip(1).contains(copy) {
                let i = choose|i: int| 0 <= i < q.skip(1).len() && q.skip(1)[i] == copy;
                assert(q[i + 1] == copy && q[0] == copy);
            }
        }
        assert forall|g: usize| #[trigger] start.gmap().contains_key(g) implies {
            &&& start.merged().global_vars.contains_key(g)
            &&& mergee0.global_vars.contains_key(start.gmap()[g])
            &&& if start.done_global_var(start.gmap()[g]) {
                &&& def_rewrites(
                    cx0,
                    start.gmap(),
                    start.fmap(),
                    start.merged().global_vars[g],
                    mergee0.global_vars[start.gmap()[g]],
                )
                &&& forall|k: int|
                    0 <= k < start.merged().global_vars[g].uses.len() ==> start.has_transformed(
                        #[trigger] start.merged().global_vars[g].uses[k],
                    )
            } else {
                mergee0.global_vars[start.gmap()[g]] == start.merged().global_vars[g]
            }
        } by {
            assert(queued.gmap().contains_key(g));
            let copy_of_g = start.gmap()[g];
            assert(start.done_global_var(copy_of_g) == queued.done_global_var(copy_of_g));
        }
    }
    let def = mergee.func(Func(copy)).unwrap();
    let data = def.data.clone();
    proof {
        let u = Use::Func(Func(source));
        assert(reachable(origin, merged, u));
        assert(def@.uses == successors(origin, merged, u));
        assert forall|k: int| 0 <= k < def.uses@.len() implies {
            &&& reachable(origin, merged, #[trigger] def.uses@[k])
            &&& origin.use_valid(def.uses@[k])
            &&& origin.use_below(def.uses@[k], origin.interned.len() as int)
        } by {
            let v = def.uses@[k];
            assert(successors(origin, merged, u).contains(v));
            lemma_successor_reachable(origin, merged, u, v);
            lemma_successor_valid(origin, merged, u, v);
        }
    }
    let (new_uses, _) = rewrite.transform_uses(
        cx,
        &def.uses,
        Ghost(origin.interned.len() as usize),
    );
    let ghost old_uses = def.uses@;
    let ghost mid = *rewrite;
    let new_def = Def { data, uses: new_uses };
    proof {
        lemma_global_var_copies_stable(&start, &mid, cx0, cx@, mergee0);
        lemma_valid_in_extends(mergee0, cx0, cx@);
        assert forall|k: int| 0 <= k < old_uses.len() implies use_rewrites(
            cx@,
            mid.gmap(),
            mid.fmap(),
            old_uses[k],
            #[trigger] new_def@.uses[k],
            cx@.interned.len() as usize,
        ) by {
            lemma_use_rewrites_stable(
                cx@,
                cx@,
                mid.gmap(),
                mid.fmap(),
                old_uses[k],
                new_def@.uses[k],
                origin.interned.len() as usize,
                cx@.interned.len() as usize,
            );
        }
        assert(def_rewrites(cx@, mid.gmap(), mid.fmap(), merged.funcs[source], new_def@));
    }
    mergee.set_func(Func(copy), new_def);
    proof {
        let after = mergee@;
        assert(!mid.fmap().contains_key(copy));
        assert(mid.done_func(copy) <==> start.done_func(copy));
        assert forall|h: usize| queued.done_func(h) implies #[trigger] mid.done_func(
            h,
        ) by {
            assert(start.done_func(h));
            mid.lemma_done_func_kept(&start, h);
        }
        assert forall|h: usize| queued.done_global_var(h) implies #[trigger]
            mid.done_global_var(h) by {
            assert(start.done_global_var(h));
            mid.lemma_done_kept(&start, h);
        }
        assert forall|u: Use| #[trigger] queued.has_transformed(u) implies mid.has_transformed(
            u,
        ) by {
            assert(start.has_transformed(u));
        }
        assert forall|f: usize| #[trigger] mid.fmap().contains_key(f) implies {
            &&& merged.funcs.contains_key(f)
            &&& after.funcs.contains_key(mid.fmap()[f])
            &&& if mid.done_func(mid.fmap()[f]) {
                &&& def_rewrites(
                    cx@,
                    mid.gmap(),
                    mid.fmap(),
                    merged.funcs[f],
                    after.funcs[mid.fmap()[f]],
                )
                &&& forall|k: int|
                    0 <= k < merged.funcs[f].uses.len() ==> mid.has_transformed(
                        #[trigger] merged.funcs[f].uses[k],
                    )
            } else {
                after.funcs[mid.fmap()[f]] == merged.funcs[f]
            }
        } by {
            assert(queued.fmap().contains_key(f));
            let other = mid.fmap()[f];
            if other == copy {
                assert(f == source);
            } else {
                assert(after.funcs[other] == mergee0.funcs[other]);
                assert(!mid.fmap().contains_key(other));
                assert(mid.done_func(other) <==> start.done_func(other));
                assert(start.done_func(other) <==> queued.done_func(other));
                if queued.done_func(other) {
                    lemma_def_rewrites_stable(
                        cx0,
                        cx@,
                        mid.gmap(),
                        mid.fmap(),
                        merged.funcs[f],
                        mergee0.funcs[other],
                    );
                    assert forall|k: int|
                        0 <= k < merged.funcs[f].uses.len() implies mid.has_transformed(
                        #[trigger] merged.funcs[f].uses[k],
                    ) by {
                        assert(queued.has_transformed(merged.funcs[f].uses[k]));
                    }
                }
            }
        }
        assert(global_var_copies_ok(&mid, cx@, after));
        assert forall|h: usize| #[trigger] after.funcs.contains_key(h) implies h
            < cx@.next_func && cx@.def_valid(after.funcs[h]) by {
            if h != copy {
                assert(mergee0.funcs.contains_key(h));
            }
        }
        assert(after.valid_in(cx@));
        assert forall|h: usize| #[trigger] before.funcs.contains_key(h) implies after.funcs[h]
            == before.funcs[h] by {
            assert(h < origin.next_func);
        }
        assert(frame_ok(&mid, before, after));
    }
}

/// The export that a rewritten reference names.
fn exportee_of(w: Use, fallback: Exportee) -> (exportee: Exportee)
    ensures
        exportee == (match w {
            Use::GlobalVar(gv) => Exportee::GlobalVar(gv),
            Use::Func(func) => Exportee::Func(func),
            _ => fallback,
        }),
{
    match w {
        Use::GlobalVar(gv) => Exportee::GlobalVar(gv),
        Use::Func(func) => Exportee::Func(func),
        _ => fallback,
    }
}

/// Registers every export of `merged` in `mergee`, rewritten. Stops at the
/// first key that `mergee` has already; the exports registered before it
/// stay.
fn register_exports(
    rewrite: &mut DeclRewrite,
    cx: &mut Context,
    mergee: &mut Module,
    merged: &Module,
    Ghost(before): Ghost<ModuleView>,
) -> (r: Result<(), MergeError>)
    requires
        phase_ok(old(rewrite), old(cx)@, before, old(mergee)),
        old(rewrite).merged() == merged@,
        merged.wf(),
        old(mergee)@.exports == before.exports,
        forall|u: Use| !old(rewrite).has_transformed(u),
    ensures
        final(cx).wf(),
        final(cx)@.extends(old(cx)@),
        final(cx)@.next_global_var == old(cx)@.next_global_var,
        final(cx)@.next_func == old(cx)@.next_func,
        phase_ok(final(rewrite), final(cx)@, before, final(mergee)),
        final(rewrite).gmap() == old(rewrite).gmap(),
        final(rewrite).fmap() == old(rewrite).fmap(),
        final(rewrite).origin() == old(rewrite).origin(),
        final(rewrite).merged() == old(rewrite).merged(),
        final(mergee)@.dialect == old(mergee)@.dialect,
        forall|g: usize| #[trigger]
            old(rewrite).gmap().contains_key(g) ==> !final(rewrite).done_global_var(
                old(rewrite).gmap()[g],
            ),
        forall|f: usize| #[trigger]
            old(rewrite).fmap().contains_key(f) ==> !final(rewrite).done_func(
                old(rewrite).fmap()[f],
            ),
        match r {
            Ok(()) => {
                &&& final(mergee)@.exports == before.exports + rewritten_exports(
                    merged@.exports,
                    old(rewrite).gmap(),
                    old(rewrite).fmap(),
                )
                &&& forall|k: int|
                    0 <= k < merged@.exports.len() ==> final(rewrite).has_transformed(
                        (#[trigger] merged@.exports[k]).1.spec_as_use(),
                    )
                &&& !share_export_key(before, merged@)
            },
            Err(e) => {
                &&& e == MergeError::DuplicateExportKey
                &&& share_export_key(before, merged@)
                &&& exists|at: int|
                    is_first_shared(before, merged@, at) && final(mergee)@.exports
                        == before.exports + rewritten_exports(
                        merged@.exports.take(at),
                        old(rewrite).gmap(),
                        old(rewrite).fmap(),
                    )
            },
        },
{
    let ghost gmap = rewrite.gmap();
    let ghost fmap = rewrite.fmap();
    let ghost origin = rewrite.origin();
    let n = merged.export_count();
    let mut k: usize = 0;
    proof {
        assert(mergee@.exports =~= before.exports + rewritten_exports(
            merged@.exports.take(0),
            gmap,
            fmap,
        ));
        assert forall|g: usize| #[trigger] gmap.contains_key(g) implies !rewrite.done_global_var(
            gmap[g],
        ) by {
            assert(!rewrite.has_transformed(Use::GlobalVar(GlobalVar(gmap[g]))));
        }
        assert forall|f: usize| #[trigger] fmap.contains_key(f) implies !rewrite.done_func(
            fmap[f],
        ) by {
            assert(!rewrite.has_transformed(Use::Func(Func(fmap[f]))));
        }
    }
    while k < n
        invariant
            k <= n,
            n == merged@.exports.len(),
            merged.wf(),
            phase_ok(rewrite, cx@, before, mergee),
            rewrite.gmap() == gmap,
            rewrite.fmap() == fmap,
            rewrite.origin() == origin,
            rewrite.merged() == merged@,
            old(rewrite).merged() == merged@,
            gmap == old(rewrite).gmap(),
            fmap == old(rewrite).fmap(),
            origin == old(rewrite).origin(),
            cx@.extends(old(cx)@),
            cx@.next_global_var == old(cx)@.next_global_var,
            cx@.next_func == old(cx)@.next_func,
            mergee@.dialect == old(mergee)@.dialect,
            mergee@.exports == before.exports + rewritten_exports(
                merged@.exports.take(k as int),
                gmap,
                fmap,
            ),
            forall|j: int|
                0 <= j < k ==> rewrite.has_transformed(
                    (#[trigger] merged@.exports[j]).1.spec_as_use(),
                ),
            forall|i: int, j: int|
                0 <= i < before.exports.len() && 0 <= j < k ==> (#[trigger] before.exports[i]).0
                    != (#[trigger] merged@.exports[j]).0,
            forall|g: usize| #[trigger]
                gmap.contains_key(g) ==> !rewrite.done_global_var(gmap[g]),
            forall|f: usize| #[trigger] fmap.contains_key(f) ==> !rewrite.done_func(fmap[f]),
        decreases n - k,
    {
        let key = merged.export_key(k).clone();
        let exportee = merged.export_target(k);
        let ghost entry = merged@.exports[k as int];
        let ghost sofar = mergee@;
        let ghost taken = rewritten_exports(merged@.exports.take(k as int), gmap, fmap);
        proof {
            assert(sofar.export_keys().len() == before.exports.len() + k);
            assert forall|i: int| 0 <= i < sofar.export_keys().len() implies (
            #[trigger] sofar.export_keys()[i]) == (if i < before.exports.len() {
                before.exports[i].0
            } else {
                merged@.exports[i - before.exports.len()].0
            }) by {
                if i >= before.exports.len() {
                    assert(sofar.exports[i] == taken[i - before.exports.len()]);
                }
            }
        }
        if !mergee.export(key, exportee) {
            proof {
                let keys = sofar.export_keys();
                let i = choose|i: int| 0 <= i < keys.len() && keys[i] == entry.0;
                if i >= before.exports.len() {
                    let j = i - before.exports.len();
                    assert(merged@.export_keys()[j] == merged@.exports[j].0);
                    assert(merged@.export_keys()[k as int] == entry.0);
                    assert(false);
                }
                assert(before.exports[i].0 == merged@.exports[k as int].0);
                assert(before.export_keys()[i] == merged@.exports[k as int].0);
                assert forall|j: int| 0 <= j < k implies !key_shared_at(before, merged@, j) by {
                    if before.export_keys().contains(merged@.exports[j].0) {
                        let a = choose|a: int|
                            0 <= a < before.export_keys().len() && before.export_keys()[a]
                                == merged@.exports[j].0;
                        assert(before.exports[a].0 != merged@.exports[j].0);
                    }
                }
                assert(is_first_shared(before, merged@, k as int));
            }
            return Err(MergeError::DuplicateExportKey);
        }
        let at = mergee.export_count() - 1;
        let ghost added = mergee@;
        let ghost start = *rewrite;
        let ghost cx1 = cx@;
        proof {
            let u = exportee.spec_as_use();
            assert(is_root(merged@, merged@.exports[k as int].1.spec_as_use()));
            lemma_root_reachable(origin, merged@, u);
            assert(origin.use_valid(merged@.exports[k as int].1.spec_as_use()));
        }
        let w = rewrite.transform_use(
            cx,
            exportee.as_use(),
            Ghost(origin.interned.len() as usize),
        );
        let rewritten = exportee_of(w, exportee);
        proof {
            assert(rewritten == subst_exportee(gmap, fmap, exportee));
            lemma_global_var_copies_stable(&start, rewrite, cx1, cx@, added);
            lemma_func_copies_stable(&start, rewrite, cx1, cx@, added);
            assert(added.valid_in(cx1)) by {
                assert forall|i: int| 0 <= i < added.exports.len() implies cx1.use_valid(
                    (#[trigger] added.exports[i]).1.spec_as_use(),
                ) by {
                    if i < sofar.exports.len() {
                        assert(added.exports[i] == sofar.exports[i]);
                    } else {
                        lemma_use_valid_extends(origin, cx1, exportee.spec_as_use());
                    }
                }
            }
            lemma_valid_in_extends(added, cx1, cx@);
        }
        mergee.set_export_target(at, rewritten);
        proof {
            let after = mergee@;
            assert(after.exports =~= before.exports + rewritten_exports(
                merged@.exports.take(k + 1),
                gmap,
                fmap,
            )) by {
                let next = rewritten_exports(merged@.exports.take(k + 1), gmap, fmap);
                assert forall|i: int| 0 <= i < after.exports.len() implies after.exports[i] == (
                before.exports + next)[i] by {
                    if i < before.exports.len() {
                        assert(after.exports[i] == sofar.exports[i]);
                    } else if i < at {
                        assert(after.exports[i] == sofar.exports[i]);
                        assert(sofar.exports[i] == taken[i - before.exports.len()]);
                    }
                }
            }
            assert(after.valid_in(cx@)) by {
                assert forall|i: int| 0 <= i < after.exports.len() implies cx@.use_valid(
                    (#[trigger] after.exports[i]).1.spec_as_use(),
                ) by {
                    if i != at {
                        assert(after.exports[i] == added.exports[i]);
                    }
                }
            }
            assert forall|j: int| 0 <= j < k + 1 implies rewrite.has_transformed(
                (#[trigger] merged@.exports[j]).1.spec_as_use(),
            ) by {
                if j < k {
                    assert(start.has_transformed(merged@.exports[j].1.spec_as_use()));
                }
            }
            assert forall|i: int, j: int|
                0 <= i < before.exports.len() && 0 <= j < k + 1 implies (
            #[trigger] before.exports[i]).0 != (#[trigger] merged@.exports[j]).0 by {
                if j == k {
                    assert(sofar.export_keys()[i] == before.exports[i].0);
                }
            }
            assert forall|g: usize| #[trigger]
                gmap.contains_key(g) implies !rewrite.done_global_var(gmap[g]) by {
                assert(!rewrite.gmap().contains_key(gmap[g]));
                assert(rewrite.done_global_var(gmap[g]) <==> start.done_global_var(gmap[g]));
            }
            assert forall|f: usize| #[trigger] fmap.contains_key(f) implies !rewrite.done_func(
                fmap[f],
            ) by {
                assert(!rewrite.fmap().contains_key(fmap[f]));
                assert(rewrite.done_func(fmap[f]) <==> start.done_func(fmap[f]));
            }
        }
        k += 1;
    }
    proof {
        assert(merged@.exports.take(n as int) =~= merged@.exports);
        if share_export_key(before, merged@) {
            let (i, j) = choose|i: int, j: int|
                0 <= i < before.exports.len() && 0 <= j < merged@.exports.len() && (
                #[trigger] before.exports[i]).0 == (#[trigger] merged@.exports[j]).0;
            assert(false);
        }
    }
    Ok(())
}

/// The copies of global variables that are rewritten.
spec fn fixed_global_vars(rewrite: &DeclRewrite) -> Set<usize> {
    Set::new(|h: usize| rewrite.is_global_var_copy(h) && rewrite.done_global_var(h))
}

/// The copies of functions that are rewritten.
spec fn fixed_funcs(rewrite: &DeclRewrite) -> Set<usize> {
    Set::new(|h: usize| rewrite.is_func_copy(h) && rewrite.done_func(h))
}

proof fn lemma_fixed_bounded(rewrite: &DeclRewrite, cx: ContextView)
    requires
        rewrite.inv(cx),
    ensures
        fixed_global_vars(rewrite).finite(),
        fixed_funcs(rewrite).finite(),
        fixed_global_vars(rewrite).len() <= cx.next_global_var,
        fixed_funcs(rewrite).len() <= cx.next_func,
{
    lemma_below(cx.next_global_var as nat);
    lemma_below(cx.next_func as nat);
    assert(fixed_global_vars(rewrite).subset_of(below(cx.next_global_var as nat)));
    assert(fixed_funcs(rewrite).subset_of(below(cx.next_func as nat)));
    lemma_set_subset_finite(below(cx.next_global_var as nat), fixed_global_vars(rewrite));
    lemma_set_subset_finite(below(cx.next_func as nat), fixed_funcs(rewrite));
    lemma_len_subset(fixed_global_vars(rewrite), below(cx.next_global_var as nat));
    lemma_len_subset(fixed_funcs(rewrite), below(cx.next_func as nat));
}

/// Takes declarations from the queues and rewrites their references in
/// place, until both queues are empty.
fn drain_queues(
    rewrite: &mut DeclRewrite,
    cx: &mut Context,
    mergee: &mut Module,
    Ghost(before): Ghost<ModuleView>,
)
    requires
        phase_ok(old(rewrite), old(cx)@, before, old(mergee)),
    ensures
        phase_ok(final(rewrite), final(cx)@, before, final(mergee)),
        final(cx)@.extends(old(cx)@),
        final(cx)@.next_global_var == old(cx)@.next_global_var,
        final(cx)@.next_func == old(cx)@.next_func,
        final(rewrite).gmap() == old(rewrite).gmap(),
        final(rewrite).fmap() == old(rewrite).fmap(),
        final(rewrite).origin() == old(rewrite).origin(),
        final(rewrite).merged() == old(rewrite).merged(),
        forall|u: Use| #[trigger]
            old(rewrite).has_transformed(u) ==> final(rewrite).has_transformed(u),
        final(rewrite).queued_global_vars().len() == 0,
        final(rewrite).queued_funcs().len() == 0,
        final(mergee)@.exports == old(mergee)@.exports,
        final(mergee)@.dialect == old(mergee)@.dialect,
{
    proof {
        lemma_fixed_bounded(rewrite, cx@);
    }
    while !rewrite.queues_empty()
        invariant
            phase_ok(rewrite, cx@, before, mergee),
            cx@.extends(old(cx)@),
            cx@.next_global_var == old(cx)@.next_global_var,
            cx@.next_func == old(cx)@.next_func,
            rewrite.gmap() == old(rewrite).gmap(),
            rewrite.fmap() == old(rewrite).fmap(),
            rewrite.origin() == old(rewrite).origin(),
            rewrite.merged() == old(rewrite).merged(),
            forall|u: Use| #[trigger]
                old(rewrite).has_transformed(u) ==> rewrite.has_transformed(u),
            mergee@.exports == old(mergee)@.exports,
            mergee@.dialect == old(mergee)@.dialect,
            fixed_global_vars(rewrite).finite(),
            fixed_funcs(rewrite).finite(),
            fixed_global_vars(rewrite).len() <= cx@.next_global_var,
            fixed_funcs(rewrite).len() <= cx@.next_func,
        decreases
                cx@.next_global_var + cx@.next_func - fixed_global_vars(rewrite).len()
                    - fixed_funcs(rewrite).len(),
    {
        let ghost queued = *rewrite;
        let ghost cx0 = cx@;
        match rewrite.pop_global_var() {
            Some(copy) => {
                fix_global_var(rewrite, cx, mergee, copy, Ghost(before), Ghost(queued));
                proof {
                    lemma_fixed_bounded(rewrite, cx@);
                    assert(fixed_global_vars(&queued).subset_of(fixed_global_vars(rewrite)));
                    assert(fixed_funcs(&queued).subset_of(fixed_funcs(rewrite)));
                    assert(fixed_global_vars(rewrite).contains(copy));
                    assert(!fixed_global_vars(&queued).contains(copy));
                    fixed_global_vars(&queued).lemma_subset_not_in_lt(
                        fixed_global_vars(rewrite),
                        copy,
                    );
                    lemma_len_subset(fixed_funcs(&queued), fixed_funcs(rewrite));
                }
            },
            None => {
                match rewrite.pop_func() {
                    Some(copy) => {
                        fix_func(rewrite, cx, mergee, copy, Ghost(before), Ghost(queued));
                        proof {
                            lemma_fixed_bounded(rewrite, cx@);
                            assert(fixed_global_vars(&queued).subset_of(
                                fixed_global_vars(rewrite),
                            ));
                            assert(fixed_funcs(&queued).subset_of(fixed_funcs(rewrite)));
                            assert(fixed_funcs(rewrite).contains(copy));
                            assert(!fixed_funcs(&queued).contains(copy));
                            fixed_funcs(&queued).lemma_subset_not_in_lt(
                                fixed_funcs(rewrite),
                                copy,
                            );
                            lemma_len_subset(
                                fixed_global_vars(&queued),
                                fixed_global_vars(rewrite),
                            );
                        }
                    },
                    None => {
                        assert(false);
                    },
                }
            },
        }
        proof {
            assert forall|u: Use| #[trigger] old(rewrite).has_transformed(
                u,
            ) implies rewrite.has_transformed(u) by {
                assert(queued.has_transformed(u));
            }
        }
    }
}

/// Once the exports are rewritten and the queues are empty, every copy is
/// rewritten.
proof fn lemma_all_fixed(rewrite: &DeclRewrite, cx: ContextView, mergee: ModuleView)
    requires
        rewrite.inv(cx),
        global_var_copies_ok(rewrite, cx, mergee),
        func_copies_ok(rewrite, cx, mergee),
        rewrite.queued_global_vars().len() == 0,
        rewrite.queued_funcs().len() == 0,
        forall|k: int|
            0 <= k < rewrite.merged().exports.len() ==> rewrite.has_transformed(
                (#[trigger] rewrite.merged().exports[k]).1.spec_as_use(),
            ),
    ensures
        forall|g: usize| #[trigger]
            rewrite.gmap().contains_key(g) ==> rewrite.done_global_var(rewrite.gmap()[g]),
        forall|f: usize| #[trigger]
            rewrite.fmap().contains_key(f) ==> rewrite.done_func(rewrite.fmap()[f]),
{
    let origin = rewrite.origin();
    let merged = rewrite.merged();
    let seen = Set::new(|u: Use| rewrite.has_transformed(u) && reachable(origin, merged, u));
    assert forall|r: Use| is_root(merged, r) implies seen.contains(r) by {
        let k = choose|k: int|
            0 <= k < merged.exports.len() && (#[trigger] merged.exports[k]).1.spec_as_use() == r;
        lemma_root_reachable(origin, merged, r);
    }
    assert forall|a: Use, b: Use|
        seen.contains(a) && #[trigger] successors(origin, merged, a).contains(
            b,
        ) implies seen.contains(b) by {
        lemma_successor_reachable(origin, merged, a, b);
        let uses = successors(origin, merged, a);
        let k = choose|k: int| 0 <= k < uses.len() && uses[k] == b;
        match a {
            Use::GlobalVar(gv) => {
                assert(rewrite.gmap().contains_key(gv.0));
                assert(rewrite.global_var_memo().contains_key(gv.0));
                let copy = rewrite.gmap()[gv.0];
                assert(rewrite.global_var_memo().contains_key(copy));
                assert(rewrite.done_global_var(copy));
                assert(rewrite.has_transformed(merged.global_vars[gv.0].uses[k]));
            },
            Use::Func(func) => {
                assert(rewrite.fmap().contains_key(func.0));
                assert(rewrite.func_memo().contains_key(func.0));
                let copy = rewrite.fmap()[func.0];
                assert(rewrite.func_memo().contains_key(copy));
                assert(rewrite.done_func(copy));
                assert(rewrite.has_transformed(merged.funcs[func.0].uses[k]));
            },
            Use::Type(t) => {
                assert(rewrite.interned_memo_ok(cx, InternedKind::Type));
                assert(rewrite.interned_memo(InternedKind::Type).contains_key(t.0));
                assert(cx.interned[t.0 as int] == origin.interned[t.0 as int]);
                assert(rewrite.has_transformed(cx.interned[t.0 as int].1.uses[k]));
            },
            Use::Const(c) => {
                assert(rewrite.interned_memo_ok(cx, InternedKind::Const));
                assert(rewrite.interned_memo(InternedKind::Const).contains_key(
                    c.0,
                ));
                assert(cx.interned[c.0 as int] == origin.interned[c.0 as int]);
                assert(rewrite.has_transformed(cx.interned[c.0 as int].1.uses[k]));
            },
            Use::DataInstForm(f) => {
                assert(rewrite.interned_memo_ok(cx, InternedKind::DataInstForm));
                assert(rewrite.interned_memo(
                    InternedKind::DataInstForm,
                ).contains_key(f.0));
                assert(cx.interned[f.0 as int] == origin.interned[f.0 as int]);
                assert(rewrite.has_transformed(cx.interned[f.0 as int].1.uses[k]));
            },
        }
    }
    assert forall|g: usize| #[trigger]
        rewrite.gmap().contains_key(g) implies rewrite.done_global_var(rewrite.gmap()[g]) by {
        let u = Use::GlobalVar(GlobalVar(g));
        assert(reachable(origin, merged, u));
        lemma_closed_set_holds_reachable(origin, merged, seen, u);
        assert(rewrite.global_var_memo().contains_key(g));
    }
    assert forall|f: usize| #[trigger] rewrite.fmap().contains_key(f) implies rewrite.done_func(
        rewrite.fmap()[f],
    ) by {
        let u = Use::Func(Func(f));
        assert(reachable(origin, merged, u));
        lemma_closed_set_holds_reachable(origin, merged, seen, u);
        assert(rewrite.func_memo().contains_key(f));
    }
}

/// The values of the maps are the copies.
proof fn lemma_values_are_copies(rewrite: &DeclRewrite)
    ensures
        forall|h: usize| rewrite.gmap().values().contains(h) <==> rewrite.is_global_var_copy(h),
        forall|h: usize| rewrite.fmap().values().contains(h) <==> rewrite.is_func_copy(h),
{
    let gmap = rewrite.gmap();
    let fmap = rewrite.fmap();
    assert forall|h: usize| gmap.values().contains(h) <==> rewrite.is_global_var_copy(h) by {
        if rewrite.is_global_var_copy(h) {
            let g = choose|g: usize| #[trigger] gmap.contains_key(g) && gmap[g] == h;
            assert(gmap.contains_pair(g, h));
        }
    }
    assert forall|h: usize| fmap.values().contains(h) <==> rewrite.is_func_copy(h) by {
        if rewrite.is_func_copy(h) {
            let f = choose|f: usize| #[trigger] fmap.contains_key(f) && fmap[f] == h;
            assert(fmap.contains_pair(f, h));
        }
    }
}

/// A list without repeats of items of a finite set is no longer than the
/// set is large.
proof fn lemma_list_fits(list: Seq<usize>, set: Set<usize>)
    requires
        list.no_duplicates(),
        set.finite(),
        forall|i: int| 0 <= i < list.len() ==> set.contains(#[trigger] list[i]),
    ensures
        list.len() <= set.len(),
{
    list.unique_seq_to_set();
    assert(list.to_set().subset_of(set)) by {
        assert forall|x: usize| list.to_set().contains(x) implies set.contains(x) by {
            let i = choose|i: int| 0 <= i < list.len() && list[i] == x;
            assert(set.contains(list[i]));
        }
    }
    lemma_len_subset(list.to_set(), set);
}

/// After a merge, each declaration that the exports of the merged module
/// reach has its copy in the result, under the handle that the maps give.
/// The result holds no declaration besides those it held before and these
/// copies: none of the merged module that its exports do not reach, and none
/// under a handle of the merged module.
pub proof fn lemma_merge_takes_the_closure(
    origin: ContextView,
    before: ModuleView,
    merged: ModuleView,
    cx: ContextView,
    after: ModuleView,
    gmap: Map<usize, usize>,
    fmap: Map<usize, usize>,
)
    requires
        merged_into(origin, before, merged, cx, after, gmap, fmap),
        merged.valid_in(origin),
    ensures
        forall|g: usize| #[trigger]
            reachable(origin, merged, Use::GlobalVar(GlobalVar(g))) ==> gmap.contains_key(g)
                && after.global_vars.contains_key(gmap[g]),
        forall|f: usize| #[trigger]
            reachable(origin, merged, Use::Func(Func(f))) ==> fmap.contains_key(f)
                && after.funcs.contains_key(fmap[f]),
        forall|h: usize| #[trigger]
            after.global_vars.contains_key(h) ==> before.global_vars.contains_key(h) || exists|
                g: usize,
            |
                gmap.contains_key(g) && gmap[g] == h && #[trigger] reachable(
                    origin,
                    merged,
                    Use::GlobalVar(GlobalVar(g)),
                ),
        forall|h: usize| #[trigger]
            after.funcs.contains_key(h) ==> before.funcs.contains_key(h) || exists|f: usize|
                fmap.contains_key(f) && fmap[f] == h && #[trigger] reachable(
                    origin,
                    merged,
                    Use::Func(Func(f)),
                ),
        forall|g: usize| #[trigger]
            merged.global_vars.contains_key(g) && !before.global_vars.contains_key(g)
                ==> !after.global_vars.contains_key(g),
        forall|f: usize| #[trigger]
            merged.funcs.contains_key(f) && !before.funcs.contains_key(f)
                ==> !after.funcs.contains_key(f),
{
    assert forall|g: usize| #[trigger]
        reachable(origin, merged, Use::GlobalVar(GlobalVar(g))) implies gmap.contains_key(g)
        && after.global_vars.contains_key(gmap[g]) by {
        assert(gmap.contains_pair(g, gmap[g]));
        assert(gmap.values().contains(gmap[g]));
        assert(after.global_vars.dom().contains(gmap[g]));
    }
    assert forall|f: usize| #[trigger]
        reachable(origin, merged, Use::Func(Func(f))) implies fmap.contains_key(f)
        && after.funcs.contains_key(fmap[f]) by {
        assert(fmap.contains_pair(f, fmap[f]));
        assert(fmap.values().contains(fmap[f]));
        assert(after.funcs.dom().contains(fmap[f]));
    }
    assert forall|h: usize| #[trigger]
        after.global_vars.contains_key(h) implies before.global_vars.contains_key(h) || exists|
        g: usize,
    |
        gmap.contains_key(g) && gmap[g] == h && #[trigger] reachable(
            origin,
            merged,
            Use::GlobalVar(GlobalVar(g)),
        ) by {
        assert(after.global_vars.dom().contains(h));
        if !before.global_vars.contains_key(h) {
            assert(gmap.values().contains(h));
            let g = choose|g: usize| #[trigger] gmap.dom().contains(g) && gmap[g] == h;
            assert(reachable(origin, merged, Use::GlobalVar(GlobalVar(g))));
        }
    }
    assert forall|h: usize| #[trigger]
        after.funcs.contains_key(h) implies before.funcs.contains_key(h) || exists|f: usize|
        fmap.contains_key(f) && fmap[f] == h && #[trigger] reachable(
            origin,
            merged,
            Use::Func(Func(f)),
        ) by {
        assert(after.funcs.dom().contains(h));
        if !before.funcs.contains_key(h) {
            assert(fmap.values().contains(h));
            let f = choose|f: usize| #[trigger] fmap.dom().contains(f) && fmap[f] == h;
            assert(reachable(origin, merged, Use::Func(Func(f))));
        }
    }
    assert forall|g: usize| #[trigger]
        merged.global_vars.contains_key(g) && !before.global_vars.contains_key(
            g,
        ) implies !after.global_vars.contains_key(g) by {
        if after.global_vars.contains_key(g) {
            assert(after.global_vars.dom().contains(g));
            assert(gmap.values().contains(g));
            let source = choose|source: usize|
                #[trigger] gmap.dom().contains(source) && gmap[source] == g;
            assert(gmap.contains_key(source));
            assert(g < origin.next_global_var);
        }
    }
    assert forall|f: usize| #[trigger]
        merged.funcs.contains_key(f) && !before.funcs.contains_key(
            f,
        ) implies !after.funcs.contains_key(f) by {
        if after.funcs.contains_key(f) {
            assert(after.funcs.dom().contains(f));
            assert(fmap.values().contains(f));
            let source = choose|source: usize|
                #[trigger] fmap.dom().contains(source) && fmap[source] == f;
            assert(fmap.contains_key(source));
            assert(f < origin.next_func);
        }
    }
}

/// Whether `u` is a reference of the destination as it was, or a reference
/// of the merged module, rewritten.
pub open spec fn taken_over(
    origin: ContextView,
    before: ModuleView,
    merged: ModuleView,
    cx: ContextView,
    gmap: Map<usize, usize>,
    fmap: Map<usize, usize>,
    u: Use,
) -> bool {
    ||| reachable(origin, before, u)
    ||| exists|s: Use| #[trigger]
        reachable(origin, merged, s) && use_rewrites(
            cx,
            gmap,
            fmap,
            s,
            u,
            cx.interned.len() as usize,
        )
}

/// A merge of two modules that hold what their exports reach gives a module
/// that holds what its exports reach: no reference is left dangling.
pub proof fn lemma_merge_keeps_closed(
    origin: ContextView,
    before: ModuleView,
    merged: ModuleView,
    cx: ContextView,
    after: ModuleView,
    gmap: Map<usize, usize>,
    fmap: Map<usize, usize>,
)
    requires
        merged_into(origin, before, merged, cx, after, gmap, fmap),
        origin.wf(),
        cx.extends(origin),
        cx.interned.len() <= usize::MAX,
        before.valid_in(origin),
        merged.valid_in(origin),
        closed_in(origin, before),
        closed_in(origin, merged),
    ensures
        closed_in(cx, after),
{
    let bound = cx.interned.len() as usize;
    let taken = Set::new(|u: Use| taken_over(origin, before, merged, cx, gmap, fmap, u));
    assert forall|r: Use| is_root(after, r) implies taken.contains(r) by {
        let k = choose|k: int|
            0 <= k < after.exports.len() && (#[trigger] after.exports[k]).1.spec_as_use() == r;
        if k < before.exports.len() {
            assert(after.exports[k] == before.exports[k]);
            assert(is_root(before, before.exports[k].1.spec_as_use()));
            lemma_root_reachable(origin, before, r);
        } else {
            let j = k - before.exports.len();
            let s = merged.exports[j].1.spec_as_use();
            assert(after.exports[k] == rewritten_exports(merged.exports, gmap, fmap)[j]);
            assert(is_root(merged, merged.exports[j].1.spec_as_use()));
            lemma_root_reachable(origin, merged, s);
            assert(use_rewrites(cx, gmap, fmap, s, r, bound));
        }
    }
    assert forall|a: Use, b: Use|
        taken.contains(a) && #[trigger] successors(cx, after, a).contains(
            b,
        ) implies taken.contains(b) by {
        let uses = successors(cx, after, a);
        let k = choose|k: int| 0 <= k < uses.len() && uses[k] == b;
        if reachable(origin, before, a) {
            lemma_reachable_valid(origin, before, a);
            match a {
                Use::GlobalVar(gv) => {
                    assert(before.global_vars.contains_key(gv.0));
                },
                Use::Func(func) => {
                    assert(before.funcs.contains_key(func.0));
                },
                _ => {
                    let h = a.interned_index()->Some_0 as int;
                    assert(cx.interned[h] == origin.interned[h]);
                },
            }
            assert(successors(origin, before, a) == uses);
            lemma_successor_reachable(origin, before, a, b);
        } else {
            let s = choose|s: Use| #[trigger]
                reachable(origin, merged, s) && use_rewrites(cx, gmap, fmap, s, a, bound);
            lemma_reachable_valid(origin, merged, s);
            match s {
                Use::GlobalVar(gv) => {
                    assert(gmap.contains_key(gv.0));
                    assert(merged.global_vars.contains_key(gv.0));
                    let from = merged.global_vars[gv.0];
                    let to = after.global_vars[gmap[gv.0]];
                    assert(gmap.values().contains(gmap[gv.0])) by {
                        assert(gmap.contains_pair(gv.0, gmap[gv.0]));
                    }
                    assert(after.global_vars.dom().contains(gmap[gv.0]));
                    assert(def_rewrites(cx, gmap, fmap, from, to));
                    assert(uses == to.uses);
                    assert(successors(origin, merged, s).contains(from.uses[k]));
                    lemma_successor_reachable(origin, merged, s, from.uses[k]);
                    assert(use_rewrites(cx, gmap, fmap, from.uses[k], to.uses[k], bound));
                },
                Use::Func(func) => {
                    assert(fmap.contains_key(func.0));
                    assert(merged.funcs.contains_key(func.0));
                    let from = merged.funcs[func.0];
                    let to = after.funcs[fmap[func.0]];
                    assert(fmap.values().contains(fmap[func.0])) by {
                        assert(fmap.contains_pair(func.0, fmap[func.0]));
                    }
                    assert(after.funcs.dom().contains(fmap[func.0]));
                    assert(def_rewrites(cx, gmap, fmap, from, to));
                    assert(uses == to.uses);
                    assert(successors(origin, merged, s).contains(from.uses[k]));
                    lemma_successor_reachable(origin, merged, s, from.uses[k]);
                    assert(use_rewrites(cx, gmap, fmap, from.uses[k], to.uses[k], bound));
                },
                _ => {
                    let h = s.interned_index()->Some_0;
                    let h2 = a.interned_index()->Some_0;
                    assert(interned_rewrites(cx, gmap, fmap, h, h2));
                    assert(cx.interned[h as int] == origin.interned[h as int]);
                    let from = cx.interned[h as int].1;
                    let to = cx.interned[h2 as int].1;
                    assert(uses == to.uses);
                    assert(use_rewrites(cx, gmap, fmap, from.uses[k], to.uses[k], h));
                    lemma_use_rewrites_stable(
                        cx,
                        cx,
                        gmap,
                        fmap,
                        from.uses[k],
                        to.uses[k],
                        h,
                        bound,
                    );
                    assert(successors(origin, merged, s).contains(from.uses[k]));
                    lemma_successor_reachable(origin, merged, s, from.uses[k]);
                },
            }
        }
    }
    assert forall|u: Use| #[trigger] reachable(cx, after, u) implies match u {
        Use::GlobalVar(gv) => after.global_vars.contains_key(gv.0),
        Use::Func(func) => after.funcs.contains_key(func.0),
        _ => true,
    } by {
        lemma_closed_set_holds_reachable(cx, after, taken, u);
        if reachable(origin, before, u) {
            match u {
                Use::GlobalVar(gv) => {
                    assert(before.global_vars.dom().contains(gv.0));
                },
                Use::Func(func) => {
                    assert(before.funcs.dom().contains(func.0));
                },
                _ => {},
            }
        } else {
            let s = choose|s: Use| #[trigger]
                reachable(origin, merged, s) && use_rewrites(cx, gmap, fmap, s, u, bound);
            match s {
                Use::GlobalVar(gv) => {
                    assert(gmap.contains_pair(gv.0, gmap[gv.0]));
                    assert(gmap.values().contains(gmap[gv.0]));
                },
                Use::Func(func) => {
                    assert(fmap.contains_pair(func.0, fmap[func.0]));
                    assert(fmap.values().contains(fmap[func.0]));
                },
                _ => {},
            }
        }
    }
}

/// Whether `merged` can be merged into `mergee`: both are modules of the
/// context, `merged` holds every declaration that its exports reach, and the
/// context can hand out a new handle for each declaration of `merged`.
pub fn is_mergeable(mergee: &Module, merged: &Module, cx: &Context) -> (ready: bool)
    requires
        cx.wf(),
        mergee.wf(),
        merged.wf(),
    ensures
        ready == (mergee@.valid_in(cx@) && merged@.valid_in(cx@) && closed_in(cx@, merged@)
            && cx@.next_global_var + merged@.global_vars.dom().len() <= usize::MAX
            && cx@.next_func + merged@.funcs.dom().len() <= usize::MAX),
{
    if !mergee.is_valid_in(cx) || !merged.is_valid_in(cx) {
        return false;
    }
    if !is_closed_in(cx, merged) {
        return false;
    }
    merged.global_var_count() <= usize::MAX - cx.global_var_count() && merged.func_count()
        <= usize::MAX - cx.func_count()
}

/// Merges `merged` into `mergee`. Both have to be modules of the context
/// `cx`: a module built from another context is not taken.
///
/// The two dialects have to be compatible, and no export key of `merged` may
/// be one of `mergee`. Then every declaration that the exports of `merged`
/// reach is copied into `mergee` under a new handle, with every reference
/// rewritten to the copies; the exports of `merged` are registered in
/// `mergee`, rewritten too; and the dialect of `mergee` becomes the two
/// dialects resolved. Declarations of `merged` that its exports do not reach
/// are dropped.
///
/// Where the dialects are not compatible, nothing is changed. Where an
/// export key is in both modules, `mergee` is left as it was when the key
/// was met: with the copies, and with the exports registered before it.
pub fn merge(mergee: &mut Module, merged: Module, cx: &mut Context) -> (r: Result<(), MergeError>)
    requires
        old(cx).wf(),
        old(mergee).wf(),
        merged.wf(),
        old(mergee)@.valid_in(old(cx)@),
        merged@.valid_in(old(cx)@),
        closed_in(old(cx)@, merged@),
        old(cx)@.next_global_var + merged@.global_vars.dom().len() <= usize::MAX,
        old(cx)@.next_func + merged@.funcs.dom().len() <= usize::MAX,
    ensures
        final(cx).wf(),
        final(cx)@.extends(old(cx)@),
        final(mergee).wf(),
        final(mergee)@.valid_in(final(cx)@),
        r is Ok <==> compatible_spec(old(mergee)@.dialect, merged@.dialect) is Ok
            && !share_export_key(old(mergee)@, merged@),
        match r {
            Ok(()) => exists|gmap: Map<usize, usize>, fmap: Map<usize, usize>|
                merged_into(
                    old(cx)@,
                    old(mergee)@,
                    merged@,
                    final(cx)@,
                    final(mergee)@,
                    gmap,
                    fmap,
                ),
            Err(MergeError::DuplicateExportKey) => compatible_spec(
                old(mergee)@.dialect,
                merged@.dialect,
            ) is Ok && share_export_key(old(mergee)@, merged@) && exists|
                gmap: Map<usize, usize>,
                fmap: Map<usize, usize>,
                at: int,
            |
                merge_stopped(
                    old(cx)@,
                    old(mergee)@,
                    merged@,
                    final(cx)@,
                    final(mergee)@,
                    gmap,
                    fmap,
                    at,
                ),
            Err(e) => compatible_spec(old(mergee)@.dialect, merged@.dialect) == Err::<
                DialectView,
                MergeError,
            >(e) && final(mergee)@ == old(mergee)@ && final(cx)@ == old(cx)@,
        },
{
    let ghost origin = cx@;
    let ghost before = mergee@;
    let resolved_dialect = match make_compatible(
        mergee.dialect().duplicate(),
        merged.dialect(),
    ) {
        Ok(resolved) => resolved,
        Err(e) => {
            return Err(e);
        },
    };
    let closure = collect_closure(cx, &merged).unwrap();
    proof {
        assert forall|i: int|
            0 <= i < closure.global_vars@.len() implies merged@.global_vars.contains_key(
            #[trigger] closure.global_vars@[i],
        ) by {
            let g = closure.global_vars@[i];
            assert(closure.global_vars@.contains(g));
            assert(reachable(origin, merged@, Use::GlobalVar(GlobalVar(g))));
        }
        assert forall|i: int| 0 <= i < closure.funcs@.len() implies merged@.funcs.contains_key(
            #[trigger] closure.funcs@[i],
        ) by {
            let f = closure.funcs@[i];
            assert(closure.funcs@.contains(f));
            assert(reachable(origin, merged@, Use::Func(Func(f))));
        }
        lemma_list_fits(closure.global_vars@, merged@.global_vars.dom());
        lemma_list_fits(closure.funcs@, merged@.funcs.dom());
    }
    let resolved_global_vars = copy_global_vars(cx, mergee, &merged, &closure.global_vars);
    let ghost cx1 = cx@;
    proof {
        lemma_valid_in_extends(merged@, origin, cx1);
    }
    let resolved_funcs = copy_funcs(cx, mergee, &merged, &closure.funcs);
    let ghost copied = mergee@;
    let mut decl_rewrite = DeclRewrite::new(
        &resolved_global_vars,
        &resolved_funcs,
        Ghost(origin),
        Ghost(merged@),
    );
    proof {
        let gmap = decl_rewrite.gmap();
        let fmap = decl_rewrite.fmap();
        let found_g = closure.global_vars@;
        let found_f = closure.funcs@;
        assert forall|g: usize| gmap.contains_key(g) <==> #[trigger] reachable(
            origin,
            merged@,
            Use::GlobalVar(GlobalVar(g)),
        ) by {
            assert(gmap.dom().contains(g) <==> found_g.to_set().contains(g));
        }
        assert forall|f: usize| fmap.contains_key(f) <==> #[trigger] reachable(
            origin,
            merged@,
            Use::Func(Func(f)),
        ) by {
            assert(fmap.dom().contains(f) <==> found_f.to_set().contains(f));
        }
        assert forall|g: usize| #[trigger] gmap.contains_key(g) implies g
            < origin.next_global_var <= gmap[g] < cx@.next_global_var
            && merged@.global_vars.contains_key(g) && copied.global_vars.contains_key(gmap[g])
            && copied.global_vars[gmap[g]] == merged@.global_vars[g] by {
            assert(found_g.to_set().contains(g));
            let i = choose|i: int| 0 <= i < found_g.len() && found_g[i] == g;
            assert(gmap[found_g[i]] == origin.next_global_var + i);
            assert(merged@.global_vars.contains_key(found_g[i]));
        }
        assert forall|f: usize| #[trigger] fmap.contains_key(f) implies f < origin.next_func
            <= fmap[f] < cx@.next_func && merged@.funcs.contains_key(f)
            && copied.funcs.contains_key(fmap[f]) && copied.funcs[fmap[f]] == merged@.funcs[f] by {
            assert(found_f.to_set().contains(f));
            let i = choose|i: int| 0 <= i < found_f.len() && found_f[i] == f;
            assert(fmap[found_f[i]] == origin.next_func + i);
            assert(merged@.funcs.contains_key(found_f[i]));
        }
        assert forall|g1: usize, g2: usize|
            #![trigger gmap.contains_key(g1), gmap.contains_key(g2)]
            gmap.contains_key(g1) && gmap.contains_key(g2) && gmap[g1] == gmap[g2] implies g1
            == g2 by {
            assert(found_g.to_set().contains(g1) && found_g.to_set().contains(g2));
            let i = choose|i: int| 0 <= i < found_g.len() && found_g[i] == g1;
            let j = choose|j: int| 0 <= j < found_g.len() && found_g[j] == g2;
            assert(gmap[found_g[i]] == origin.next_global_var + i);
            assert(gmap[found_g[j]] == origin.next_global_var + j);
        }
        assert forall|f1: usize, f2: usize|
            #![trigger fmap.contains_key(f1), fmap.contains_key(f2)]
            fmap.contains_key(f1) && fmap.contains_key(f2) && fmap[f1] == fmap[f2] implies f1
            == f2 by {
            assert(found_f.to_set().contains(f1) && found_f.to_set().contains(f2));
            let i = choose|i: int| 0 <= i < found_f.len() && found_f[i] == f1;
            let j = choose|j: int| 0 <= j < found_f.len() && found_f[j] == f2;
            assert(fmap[found_f[i]] == origin.next_func + i);
            assert(fmap[found_f[j]] == origin.next_func + j);
        }
        assert(cx@.wf()) by {
            assert forall|i: int, k: int|
                0 <= i < cx@.interned.len() && 0 <= k < cx@.interned[i].1.uses.len() implies {
                &&& cx@.use_valid(#[trigger] cx@.interned[i].1.uses[k])
                &&& cx@.use_below(cx@.interned[i].1.uses[k], i)
            } by {
                assert(origin.use_valid(origin.interned[i].1.uses[k]));
                lemma_use_valid_extends(origin, cx@, origin.interned[i].1.uses[k]);
            }
        }
        assert(decl_rewrite.maps_ok(cx@));
        assert forall|kind: InternedKind, h: usize|
            !decl_rewrite.interned_memo(kind).contains_key(h) by {
            assert(!decl_rewrite.has_transformed(interned_use(kind, h)));
        }
        assert forall|h: usize| !decl_rewrite.global_var_memo().contains_key(h) by {
            assert(!decl_rewrite.has_transformed(Use::GlobalVar(GlobalVar(h))));
        }
        assert forall|h: usize| !decl_rewrite.func_memo().contains_key(h) by {
            assert(!decl_rewrite.has_transformed(Use::Func(Func(h))));
        }
        assert(decl_rewrite.inv(cx@));
        assert(global_var_copies_ok(&decl_rewrite, cx@, copied));
        assert(func_copies_ok(&decl_rewrite, cx@, copied));
        assert forall|h: usize| #[trigger]
            copied.global_vars.contains_key(h) <==> before.global_vars.contains_key(h)
                || decl_rewrite.is_global_var_copy(h) by {
            if origin.next_global_var <= h < origin.next_global_var + found_g.len() {
                let g = found_g[h - origin.next_global_var];
                assert(found_g.to_set().contains(g));
                assert(gmap.contains_key(g) && gmap[g] == h);
            }
        }
        assert forall|h: usize| #[trigger]
            copied.funcs.contains_key(h) <==> before.funcs.contains_key(h)
                || decl_rewrite.is_func_copy(h) by {
            if origin.next_func <= h < origin.next_func + found_f.len() {
                let f = found_f[h - origin.next_func];
                assert(found_f.to_set().contains(f));
                assert(fmap.contains_key(f) && fmap[f] == h);
            }
        }
        assert(frame_ok(&decl_rewrite, before, copied));
        assert(phase_ok(&decl_rewrite, cx@, before, mergee));
    }
    match register_exports(&mut decl_rewrite, cx, mergee, &merged, Ghost(before)) {
        Ok(()) => {},
        Err(e) => {
            proof {
                let gmap = decl_rewrite.gmap();
                let fmap = decl_rewrite.fmap();
                let after = mergee@;
                let at = choose|at: int|
                    is_first_shared(before, merged@, at) && after.exports == before.exports
                        + rewritten_exports(merged@.exports.take(at), gmap, fmap);
                lemma_values_are_copies(&decl_rewrite);
                assert(gmap.is_injective());
                assert(fmap.is_injective());
                assert(after.global_vars.dom() =~= before.global_vars.dom().union(gmap.values()));
                assert(after.funcs.dom() =~= before.funcs.dom().union(fmap.values()));
                assert(merge_stopped(origin, before, merged@, cx@, after, gmap, fmap, at));
            }
            return Err(e);
        },
    }
    drain_queues(&mut decl_rewrite, cx, mergee, Ghost(before));
    let ghost drained = mergee@;
    mergee.set_dialect(resolved_dialect);
    proof {
        let gmap = decl_rewrite.gmap();
        let fmap = decl_rewrite.fmap();
        let after = mergee@;
        lemma_all_fixed(&decl_rewrite, cx@, drained);
        lemma_values_are_copies(&decl_rewrite);
        assert(gmap.is_injective());
        assert(fmap.is_injective());
        assert(after.global_vars.dom() =~= before.global_vars.dom().union(gmap.values()));
        assert(after.funcs.dom() =~= before.funcs.dom().union(fmap.values()));
        assert(merged_into(origin, before, merged@, cx@, after, gmap, fmap));
    }
    Ok(())
}

} // verus!
