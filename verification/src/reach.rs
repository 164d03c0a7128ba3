//! Reachability: what the exports of a module reach by following references.

use crate::context::ContextView;
use crate::ir::Use;
use crate::module::ModuleView;
use vstd::prelude::*;

verus! {

/// The references that the definition behind `u` holds: for an interned
/// value its definition in the context, for a declaration its definition in
/// the module. None where there is no such definition.
pub open spec fn successors(cx: ContextView, m: ModuleView, u: Use) -> Seq<Use> {
    match u {
        Use::GlobalVar(gv) => if m.global_vars.contains_key(gv.0) {
            m.global_vars[gv.0].uses
        } else {
            Seq::empty()
        },
        Use::Func(func) => if m.funcs.contains_key(func.0) {
            m.funcs[func.0].uses
        } else {
            Seq::empty()
        },
        _ => if u.interned_index()->Some_0 < cx.interned.len() {
            cx.interned[u.interned_index()->Some_0 as int].1.uses
        } else {
            Seq::empty()
        },
    }
}

/// Whether an export of the module names `u`.
pub open spec fn is_root(m: ModuleView, u: Use) -> bool {
    exists|k: int| 0 <= k < m.exports.len() && (#[trigger] m.exports[k]).1.spec_as_use() == u
}

/// Whether the sequence starts at an export and each of its items holds a
/// reference to the next.
pub open spec fn is_path(cx: ContextView, m: ModuleView, path: Seq<Use>) -> bool {
    &&& path.len() >= 1
    &&& is_root(m, path[0])
    &&& forall|i: int|
        0 <= i < path.len() - 1 ==> successors(cx, m, #[trigger] path[i]).contains(path[i + 1])
}

/// Whether an export of the module reaches `u`.
pub open spec fn reachable(cx: ContextView, m: ModuleView, u: Use) -> bool {
    exists|path: Seq<Use>| is_path(cx, m, path) && #[trigger] path.last() == u
}

/// Whether the module holds every declaration that its exports reach.
pub open spec fn closed_in(cx: ContextView, m: ModuleView) -> bool {
    forall|u: Use| #[trigger]
        reachable(cx, m, u) ==> match u {
            Use::GlobalVar(gv) => m.global_vars.contains_key(gv.0),
            Use::Func(func) => m.funcs.contains_key(func.0),
            _ => true,
        }
}

/// What an export names is reached.
pub proof fn lemma_root_reachable(cx: ContextView, m: ModuleView, u: Use)
    requires
        is_root(m, u),
    ensures
        reachable(cx, m, u),
{
    let path = seq![u];
    assert(is_path(cx, m, path));
    assert(path.last() == u);
}

/// What something reached refers to is reached.
pub proof fn lemma_successor_reachable(cx: ContextView, m: ModuleView, u: Use, v: Use)
    requires
        reachable(cx, m, u),
        successors(cx, m, u).contains(v),
    ensures
        reachable(cx, m, v),
{
    let path = choose|path: Seq<Use>| is_path(cx, m, path) && #[trigger] path.last() == u;
    let longer = path.push(v);
    assert forall|i: int| 0 <= i < longer.len() - 1 implies successors(
        cx,
        m,
        #[trigger] longer[i],
    ).contains(longer[i + 1]) by {
        if i < path.len() - 1 {
            assert(longer[i] == path[i] && longer[i + 1] == path[i + 1]);
        }
    }
    assert(longer[0] == path[0]);
    assert(is_path(cx, m, longer));
    assert(longer.last() == v);
}

/// A set that holds what the exports name, and with each item what the item
/// refers to, holds all that is reached.
pub proof fn lemma_closed_set_holds_reachable(
    cx: ContextView,
    m: ModuleView,
    seen: Set<Use>,
    u: Use,
)
    requires
        forall|r: Use| is_root(m, r) ==> seen.contains(r),
        forall|a: Use, b: Use|
            seen.contains(a) && #[trigger] successors(cx, m, a).contains(b) ==> seen.contains(b),
        reachable(cx, m, u),
    ensures
        seen.contains(u),
{
    let path = choose|path: Seq<Use>| is_path(cx, m, path) && #[trigger] path.last() == u;
    lemma_path_in_closed_set(cx, m, seen, path, path.len() - 1);
}

proof fn lemma_path_in_closed_set(
    cx: ContextView,
    m: ModuleView,
    seen: Set<Use>,
    path: Seq<Use>,
    n: int,
)
    requires
        forall|r: Use| is_root(m, r) ==> seen.contains(r),
        forall|a: Use, b: Use|
            seen.contains(a) && #[trigger] successors(cx, m, a).contains(b) ==> seen.contains(b),
        is_path(cx, m, path),
        0 <= n < path.len(),
    ensures
        seen.contains(path[n]),
    decreases n,
{
    if n > 0 {
        lemma_path_in_closed_set(cx, m, seen, path, n - 1);
        assert(successors(cx, m, path[n - 1]).contains(path[n - 1 + 1]));
    }
}

/// What something valid refers to is valid, in a well-formed context and a
/// module of it.
pub proof fn lemma_successor_valid(cx: ContextView, m: ModuleView, u: Use, v: Use)
    requires
        cx.wf(),
        m.valid_in(cx),
        cx.use_valid(u),
        successors(cx, m, u).contains(v),
    ensures
        cx.use_valid(v),
        u.interned_index() is Some ==> cx.use_below(v, u.interned_index()->Some_0 as int),
{
    let k = choose|k: int| 0 <= k < successors(cx, m, u).len() && successors(cx, m, u)[k] == v;
    match u {
        Use::GlobalVar(gv) => {
            assert(m.global_vars.contains_key(gv.0));
            assert(cx.def_valid(m.global_vars[gv.0]));
        },
        Use::Func(func) => {
            assert(m.funcs.contains_key(func.0));
            assert(cx.def_valid(m.funcs[func.0]));
        },
        _ => {
            let h = u.interned_index()->Some_0 as int;
            assert(cx.use_valid(cx.interned[h].1.uses[k]));
        },
    }
}

/// What the exports of a module of a well-formed context reach is valid in
/// the context.
pub proof fn lemma_reachable_valid(cx: ContextView, m: ModuleView, u: Use)
    requires
        cx.wf(),
        m.valid_in(cx),
        reachable(cx, m, u),
    ensures
        cx.use_valid(u),
{
    let valid = Set::new(|v: Use| cx.use_valid(v));
    assert forall|r: Use| is_root(m, r) implies valid.contains(r) by {
        let k = choose|k: int|
            0 <= k < m.exports.len() && (#[trigger] m.exports[k]).1.spec_as_use() == r;
        assert(cx.use_valid(m.exports[k].1.spec_as_use()));
    }
    assert forall|a: Use, b: Use|
        valid.contains(a) && #[trigger] successors(cx, m, a).contains(b) implies valid.contains(
        b,
    ) by {
        lemma_successor_valid(cx, m, a, b);
    }
    lemma_closed_set_holds_reachable(cx, m, valid, u);
}

} // verus!
