use spirt::context::{Context, InternedKind};
use spirt::dialect::{CapabilitySet, Dialect, ExtensionSet, ModuleDialect};
use spirt::ir::{Const, DataInstForm, Def, Exportee, Func, GlobalVar, Type, Use};
use spirt::merge::{make_compatible, merge, MergeError};
use spirt::module::Module;
use spirt::rewrite::Transformed;

fn dialect(major: u8, minor: u8, caps: &[u32], exts: &[&str]) -> ModuleDialect {
    let mut capabilities = CapabilitySet::new();
    for c in caps {
        capabilities.insert(*c);
    }
    let mut extensions = ExtensionSet::new();
    for e in exts {
        extensions.insert(e.to_string());
    }
    ModuleDialect::Spv(Dialect {
        version_major: major,
        version_minor: minor,
        original_generator_magic: 0,
        original_id_bound: 1,
        capabilities,
        extensions,
        addressing_model: 0,
        memory_model: 1,
    })
}

fn sorted_caps(d: &ModuleDialect) -> Vec<u32> {
    let ModuleDialect::Spv(d) = d;
    let mut caps = d.capabilities.to_vec();
    caps.sort();
    caps
}

fn def(data: &[u32], uses: &[Use]) -> Def {
    Def { data: data.to_vec(), uses: uses.to_vec() }
}

fn module(cx: &Context, caps: &[u32]) -> Module {
    Module::new(cx, dialect(1, 5, caps, &[]), vec![])
}

const X: u32 = 1;
const Y: u32 = 2;
const Z: u32 = 3;

#[test]
fn capability_sets_are_united() {
    let a = dialect(1, 5, &[X, Y], &["e1"]);
    let b = dialect(1, 5, &[Y, Z], &["e2", "e1"]);
    let merged = make_compatible(a, &b).unwrap();
    assert_eq!(sorted_caps(&merged), vec![X, Y, Z]);
    let ModuleDialect::Spv(d) = &merged;
    assert_eq!(d.capabilities.len(), 3);
    assert_eq!(d.extensions.len(), 2);
    assert!(d.extensions.contains(&"e1".to_string()));
    assert!(d.extensions.contains(&"e2".to_string()));
    assert!(!d.extensions.contains(&"e3".to_string()));
    assert_eq!((d.version_major, d.version_minor), (1, 5));
}

#[test]
fn merging_a_dialect_twice_changes_nothing_more() {
    let a = dialect(1, 5, &[X, Y], &["e1"]);
    let b = dialect(1, 5, &[Y, Z], &["e2"]);
    let once = make_compatible(a, &b).unwrap();
    let caps_once = sorted_caps(&once);
    let twice = make_compatible(once, &b).unwrap();
    assert_eq!(sorted_caps(&twice), caps_once);
    let ModuleDialect::Spv(d) = &twice;
    assert_eq!(d.extensions.len(), 2);
    let same = make_compatible(dialect(1, 5, &[X, Y], &[]), &dialect(1, 5, &[X, Y], &[])).unwrap();
    assert_eq!(sorted_caps(&same), vec![X, Y]);
}

#[test]
fn the_union_does_not_depend_on_the_order() {
    let ab = make_compatible(dialect(1, 5, &[X, Y], &[]), &dialect(1, 5, &[Y, Z], &[])).unwrap();
    let ba = make_compatible(dialect(1, 5, &[Y, Z], &[]), &dialect(1, 5, &[X, Y], &[])).unwrap();
    assert_eq!(sorted_caps(&ab), sorted_caps(&ba));
}

#[test]
fn version_skew_is_rejected() {
    let mergee = dialect(1, 3, &[X], &[]);
    let merged = dialect(1, 5, &[X], &[]);
    assert_eq!(
        make_compatible(mergee, &merged).unwrap_err(),
        MergeError::VersionMismatch { mergee: (1, 3), merged: (1, 5) }
    );
    assert_eq!(
        make_compatible(dialect(2, 5, &[], &[]), &dialect(1, 5, &[], &[])).unwrap_err(),
        MergeError::VersionMismatch { mergee: (2, 5), merged: (1, 5) }
    );
}

#[test]
fn model_mismatches_are_rejected_first() {
    let ModuleDialect::Spv(mut a) = dialect(1, 3, &[], &[]);
    a.memory_model = 2;
    a.addressing_model = 7;
    assert_eq!(
        make_compatible(ModuleDialect::Spv(a), &dialect(1, 5, &[], &[])).unwrap_err(),
        MergeError::MemoryModelMismatch
    );
    let ModuleDialect::Spv(mut a) = dialect(1, 3, &[], &[]);
    a.addressing_model = 7;
    assert_eq!(
        make_compatible(ModuleDialect::Spv(a), &dialect(1, 5, &[], &[])).unwrap_err(),
        MergeError::AddressingModelMismatch
    );
}

#[test]
fn interning_gives_one_handle_to_one_value() {
    let mut cx = Context::new(1);
    let t1 = cx.intern_type(def(&[1], &[]));
    let t2 = cx.intern_type(def(&[2], &[]));
    let t1_again = cx.intern_type(def(&[1], &[]));
    assert_eq!(t1, t1_again);
    assert_ne!(t1, t2);
    // A constant with the data of a type is another value.
    let c = cx.intern_const(def(&[1], &[]));
    assert_ne!(c.0, t1.0);
    assert_eq!(cx.interned_count(), 3);
    assert_eq!(cx.kind_of(c.0), InternedKind::Const);
    assert_eq!(cx.kind_of(t2.0), InternedKind::Type);
    let f = cx.intern_data_inst_form(def(&[9], &[Use::Type(t1), Use::Const(c)]));
    assert_eq!(cx.def_of(f.0).uses, vec![Use::Type(t1), Use::Const(c)]);
    assert_eq!(cx.intern(InternedKind::DataInstForm, def(&[9], &[Use::Type(t1), Use::Const(c)])), f.0);
    assert_ne!(cx.intern(InternedKind::DataInstForm, def(&[9], &[Use::Const(c), Use::Type(t1)])), f.0);
}

#[test]
fn a_transformed_handle_is_applied() {
    assert_eq!(Transformed::Unchanged.apply_to(4), 4);
    assert_eq!(Transformed::Changed(9).apply_to(4), 9);
}

/// A destination with one global variable and one function of its own, and a
/// source with a function `main` that reaches a global variable through a
/// constant and itself through an instruction form, and with a global
/// variable and a function that no export reaches.
struct Setup {
    cx: Context,
    mergee: Module,
    merged: Module,
    t_void: Type,
    c_ptr: Const,
    call_main: DataInstForm,
    src_gv: GlobalVar,
    src_main: Func,
    lost_gv: GlobalVar,
    lost_func: Func,
}

fn setup() -> Setup {
    let mut cx = Context::new(1);
    let t_void = cx.intern_type(def(&[1], &[]));

    let mut mergee = module(&cx, &[X, Y]);
    let own_gv = mergee.define_global_var(&mut cx, def(&[100], &[Use::Type(t_void)]));
    let own_func =
        mergee.define_func(&mut cx, def(&[101], &[Use::GlobalVar(own_gv), Use::Type(t_void)]));
    assert!(mergee.export("a_main".to_string(), Exportee::Func(own_func)));
    assert_eq!((own_gv, own_func), (GlobalVar(0), Func(0)));

    let mut merged = module(&cx, &[Y, Z]);
    let src_gv = merged.define_global_var(&mut cx, def(&[10], &[Use::Type(t_void)]));
    let lost_gv = merged.define_global_var(&mut cx, def(&[11], &[]));
    let c_ptr = cx.intern_const(def(&[2], &[Use::GlobalVar(src_gv), Use::Type(t_void)]));
    let src_main = merged.define_func(&mut cx, def(&[20], &[]));
    let call_main = cx.intern_data_inst_form(def(&[3], &[Use::Func(src_main)]));
    merged.set_func(
        src_main,
        def(&[20], &[Use::Const(c_ptr), Use::DataInstForm(call_main), Use::Type(t_void)]),
    );
    let lost_func = merged.define_func(&mut cx, def(&[21], &[Use::GlobalVar(lost_gv)]));
    assert!(merged.export("main".to_string(), Exportee::Func(src_main)));
    assert_eq!((src_gv, lost_gv, src_main, lost_func), (GlobalVar(1), GlobalVar(2), Func(1), Func(2)));

    Setup { cx, mergee, merged, t_void, c_ptr, call_main, src_gv, src_main, lost_gv, lost_func }
}

#[test]
fn merge_copies_what_the_exports_reach() {
    let Setup { mut cx, mut mergee, merged, t_void, c_ptr, call_main, src_gv, src_main, lost_gv, lost_func } =
        setup();
    let interned_before = cx.interned_count();
    assert_eq!(merge(&mut mergee, merged, &mut cx), Ok(()));

    // One global variable and one function were copied, under new handles.
    assert_eq!(cx.global_var_count(), 4);
    assert_eq!(cx.func_count(), 4);
    let new_gv = GlobalVar(3);
    let new_main = Func(3);

    // The destination holds its own declarations and the copies, no others.
    assert_eq!(mergee.global_var(GlobalVar(0)).unwrap().data, vec![100]);
    assert_eq!(mergee.func(Func(0)).unwrap().uses, vec![Use::GlobalVar(GlobalVar(0)), Use::Type(t_void)]);
    assert!(mergee.global_var(src_gv).is_none());
    assert!(mergee.global_var(lost_gv).is_none());
    assert!(mergee.func(src_main).is_none());
    assert!(mergee.func(lost_func).is_none());
    assert!(mergee.global_var(GlobalVar(4)).is_none());
    assert!(mergee.func(Func(4)).is_none());

    // The copy of the global variable refers to nothing that was copied.
    let gv_copy = mergee.global_var(new_gv).unwrap();
    assert_eq!(gv_copy.data, vec![10]);
    assert_eq!(gv_copy.uses, vec![Use::Type(t_void)]);

    // The copy of the function refers to the rewritten constant and form.
    let main_copy = mergee.func(new_main).unwrap();
    assert_eq!(main_copy.data, vec![20]);
    assert_eq!(main_copy.uses.len(), 3);
    let (new_const, new_form) = match (main_copy.uses[0], main_copy.uses[1]) {
        (Use::Const(c), Use::DataInstForm(f)) => (c, f),
        other => panic!("{:?}", other),
    };
    assert_eq!(main_copy.uses[2], Use::Type(t_void));
    assert_ne!(new_const, c_ptr);
    assert_ne!(new_form, call_main);
    assert_eq!(cx.kind_of(new_const.0), InternedKind::Const);
    assert_eq!(cx.def_of(new_const.0).data, vec![2]);
    assert_eq!(cx.def_of(new_const.0).uses, vec![Use::GlobalVar(new_gv), Use::Type(t_void)]);
    assert_eq!(cx.kind_of(new_form.0), InternedKind::DataInstForm);
    assert_eq!(cx.def_of(new_form.0).data, vec![3]);
    assert_eq!(cx.def_of(new_form.0).uses, vec![Use::Func(new_main)]);

    // The old interned values are as they were; two were added.
    assert_eq!(cx.interned_count(), interned_before + 2);
    assert_eq!(cx.def_of(c_ptr.0).uses, vec![Use::GlobalVar(src_gv), Use::Type(t_void)]);
    assert_eq!(cx.def_of(call_main.0).uses, vec![Use::Func(src_main)]);

    // The export map is extended, and the new export names the copy.
    assert_eq!(mergee.export_count(), 2);
    assert_eq!(mergee.export_key(0), "a_main");
    assert_eq!(mergee.export_target(0), Exportee::Func(Func(0)));
    assert_eq!(mergee.export_key(1), "main");
    assert_eq!(mergee.export_target(1), Exportee::Func(new_main));
    assert_eq!(mergee.exportee(&"main".to_string()), Some(Exportee::Func(new_main)));
    assert_eq!(mergee.exportee(&"other".to_string()), None);

    // The dialect is the two resolved.
    assert_eq!(sorted_caps(mergee.dialect()), vec![X, Y, Z]);

    // No reference is left dangling.
    assert!(mergee.is_valid_in(&cx));
    assert!(spirt::collect::is_closed_in(&cx, &mergee));
    assert_eq!(mergee.global_var_count(), 2);
    assert_eq!(mergee.func_count(), 2);
}

#[test]
fn duplicate_export_key_is_rejected() {
    let Setup { mut cx, mut mergee, mut merged, src_gv, .. } = setup();
    assert!(mergee.export("main".to_string(), Exportee::Func(Func(0))));
    assert!(merged.export("zz".to_string(), Exportee::GlobalVar(src_gv)));
    assert_eq!(merge(&mut mergee, merged, &mut cx), Err(MergeError::DuplicateExportKey));
    // The key that was met is not processed; the one behind it is not reached.
    assert_eq!(mergee.export_count(), 2);
    assert_eq!(mergee.exportee(&"main".to_string()), Some(Exportee::Func(Func(0))));
    assert_eq!(mergee.exportee(&"zz".to_string()), None);
}

#[test]
fn exports_before_a_duplicate_key_stay() {
    let Setup { mut cx, mut mergee, mut merged, src_gv, .. } = setup();
    assert!(mergee.export("zz".to_string(), Exportee::Func(Func(0))));
    assert!(merged.export("zz".to_string(), Exportee::GlobalVar(src_gv)));
    assert_eq!(merge(&mut mergee, merged, &mut cx), Err(MergeError::DuplicateExportKey));
    assert_eq!(mergee.export_count(), 3);
    assert_eq!(mergee.exportee(&"main".to_string()), Some(Exportee::Func(Func(3))));
    assert_eq!(mergee.exportee(&"zz".to_string()), Some(Exportee::Func(Func(0))));
    // The copies are there, with their references as they were.
    assert_eq!(mergee.global_var(GlobalVar(3)).unwrap().data, vec![10]);
    assert_eq!(mergee.func(Func(3)).unwrap().uses[0], Use::Const(Const(1)));
    // The dialect is not replaced.
    assert_eq!(sorted_caps(mergee.dialect()), vec![X, Y]);
}

#[test]
fn incompatible_dialects_leave_the_destination_alone() {
    let Setup { mut cx, mut mergee, merged, .. } = setup();
    mergee.dialect = dialect(1, 3, &[X, Y], &[]);
    assert_eq!(
        merge(&mut mergee, merged, &mut cx),
        Err(MergeError::VersionMismatch { mergee: (1, 3), merged: (1, 5) })
    );
    assert_eq!(mergee.export_count(), 1);
    assert_eq!(cx.global_var_count(), 3);
    assert_eq!(cx.func_count(), 3);
    assert!(mergee.global_var(GlobalVar(3)).is_none());
}

#[test]
fn a_declaration_reached_twice_is_copied_once() {
    let mut cx = Context::new(1);
    let mut mergee = module(&cx, &[]);
    let mut merged = module(&cx, &[]);
    let shared = merged.define_global_var(&mut cx, def(&[1], &[]));
    let f = merged.define_func(&mut cx, def(&[2], &[Use::GlobalVar(shared), Use::GlobalVar(shared)]));
    let g = merged.define_func(&mut cx, def(&[3], &[Use::Func(f), Use::GlobalVar(shared)]));
    assert!(merged.export("g".to_string(), Exportee::Func(g)));
    assert!(merged.export("f".to_string(), Exportee::Func(f)));
    assert!(merged.export("shared".to_string(), Exportee::GlobalVar(shared)));
    assert_eq!(merge(&mut mergee, merged, &mut cx), Ok(()));
    assert_eq!(cx.global_var_count(), 2);
    assert_eq!(cx.func_count(), 4);
    let new_shared = match mergee.export_target(2) {
        Exportee::GlobalVar(gv) => gv,
        other => panic!("{:?}", other),
    };
    assert_eq!(new_shared, GlobalVar(1));
    let (new_g, new_f) = match (mergee.export_target(0), mergee.export_target(1)) {
        (Exportee::Func(g), Exportee::Func(f)) => (g, f),
        other => panic!("{:?}", other),
    };
    assert_ne!(new_g, new_f);
    assert!(new_g.0 >= 2 && new_f.0 >= 2);
    assert_eq!(
        mergee.func(new_f).unwrap().uses,
        vec![Use::GlobalVar(new_shared), Use::GlobalVar(new_shared)]
    );
    assert_eq!(mergee.func(new_g).unwrap().uses, vec![Use::Func(new_f), Use::GlobalVar(new_shared)]);
    assert_eq!(mergee.func(new_g).unwrap().data, vec![3]);
}

#[test]
fn declarations_that_refer_to_each_other_are_merged() {
    let mut cx = Context::new(1);
    let mut mergee = module(&cx, &[]);
    let mut merged = module(&cx, &[]);
    let even = merged.define_func(&mut cx, def(&[1], &[]));
    let odd = merged.define_func(&mut cx, def(&[2], &[Use::Func(even)]));
    merged.set_func(even, def(&[1], &[Use::Func(odd), Use::Func(even)]));
    assert!(merged.export("even".to_string(), Exportee::Func(even)));
    assert_eq!(merge(&mut mergee, merged, &mut cx), Ok(()));
    let new_even = match mergee.export_target(0) {
        Exportee::Func(f) => f,
        other => panic!("{:?}", other),
    };
    let uses = mergee.func(new_even).unwrap().uses.clone();
    let new_odd = match uses[0] {
        Use::Func(f) => f,
        other => panic!("{:?}", other),
    };
    assert_eq!(uses, vec![Use::Func(new_odd), Use::Func(new_even)]);
    assert_eq!(mergee.func(new_odd).unwrap().uses, vec![Use::Func(new_even)]);
    assert!(spirt::collect::is_closed_in(&cx, &mergee));
    assert!(mergee.func(even).is_none());
    assert!(mergee.func(odd).is_none());
    assert_eq!(cx.func_count(), 4);
}

#[test]
fn interned_values_without_declarations_keep_their_handles() {
    let mut cx = Context::new(1);
    let t = cx.intern_type(def(&[1], &[]));
    let array = cx.intern_type(def(&[2], &[Use::Type(t)]));
    let c = cx.intern_const(def(&[3], &[Use::Type(array)]));
    let mut mergee = module(&cx, &[]);
    let mut merged = module(&cx, &[]);
    let gv = merged.define_global_var(&mut cx, def(&[4], &[Use::Const(c), Use::Type(array)]));
    assert!(merged.export("gv".to_string(), Exportee::GlobalVar(gv)));
    assert_eq!(merge(&mut mergee, merged, &mut cx), Ok(()));
    assert_eq!(cx.interned_count(), 3);
    assert_eq!(mergee.export_target(0), Exportee::GlobalVar(GlobalVar(1)));
    assert_eq!(
        mergee.global_var(GlobalVar(1)).unwrap().uses,
        vec![Use::Const(c), Use::Type(array)]
    );
}

#[test]
fn nested_interned_values_are_rebuilt_from_the_inside() {
    let mut cx = Context::new(1);
    let mut mergee = module(&cx, &[]);
    let mut merged = module(&cx, &[]);
    let gv = merged.define_global_var(&mut cx, def(&[4], &[]));
    let plain = cx.intern_type(def(&[1], &[]));
    let ptr = cx.intern_const(def(&[2], &[Use::GlobalVar(gv)]));
    let pair = cx.intern_const(def(&[3], &[Use::Const(ptr), Use::Type(plain), Use::Const(ptr)]));
    let f = merged.define_func(&mut cx, def(&[5], &[Use::Const(pair), Use::Const(ptr)]));
    assert!(merged.export("f".to_string(), Exportee::Func(f)));
    assert_eq!(merge(&mut mergee, merged, &mut cx), Ok(()));
    let new_f = match mergee.export_target(0) {
        Exportee::Func(f) => f,
        other => panic!("{:?}", other),
    };
    let uses = mergee.func(new_f).unwrap().uses.clone();
    let (new_pair, new_ptr) = match (uses[0], uses[1]) {
        (Use::Const(a), Use::Const(b)) => (a, b),
        other => panic!("{:?}", other),
    };
    assert_eq!(cx.def_of(new_ptr.0).uses, vec![Use::GlobalVar(GlobalVar(1))]);
    assert_eq!(
        cx.def_of(new_pair.0).uses,
        vec![Use::Const(new_ptr), Use::Type(plain), Use::Const(new_ptr)]
    );
    assert_eq!(cx.def_of(new_pair.0).data, vec![3]);
    // Each value was rewritten once: two constants were added.
    assert_eq!(cx.interned_count(), 5);
}

#[test]
fn merging_a_module_without_exports_copies_nothing() {
    let mut cx = Context::new(1);
    let mut mergee = module(&cx, &[X]);
    let mut merged = module(&cx, &[Z]);
    let gv = merged.define_global_var(&mut cx, def(&[1], &[]));
    assert_eq!(gv, GlobalVar(0));
    assert_eq!(merge(&mut mergee, merged, &mut cx), Ok(()));
    assert_eq!(cx.global_var_count(), 1);
    assert!(mergee.global_var(gv).is_none());
    assert_eq!(mergee.export_count(), 0);
    assert_eq!(sorted_caps(mergee.dialect()), vec![X, Z]);
}

#[test]
fn modules_can_be_merged_one_after_another() {
    let mut cx = Context::new(1);
    let mut mergee = module(&cx, &[]);
    for (i, key) in ["one", "two", "three"].iter().enumerate() {
        let mut merged = module(&cx, &[i as u32]);
        let gv = merged.define_global_var(&mut cx, def(&[i as u32], &[]));
        let f = merged.define_func(&mut cx, def(&[i as u32], &[Use::GlobalVar(gv)]));
        assert!(merged.export(key.to_string(), Exportee::Func(f)));
        assert_eq!(merge(&mut mergee, merged, &mut cx), Ok(()));
    }
    assert_eq!(mergee.export_count(), 3);
    assert_eq!(sorted_caps(mergee.dialect()), vec![0, 1, 2]);
    for i in 0..3 {
        let f = match mergee.export_target(i) {
            Exportee::Func(f) => f,
            other => panic!("{:?}", other),
        };
        let copy = mergee.func(f).unwrap();
        assert_eq!(copy.data, vec![i as u32]);
        let gv = match copy.uses[0] {
            Use::GlobalVar(gv) => gv,
            other => panic!("{:?}", other),
        };
        assert_eq!(mergee.global_var(gv).unwrap().data, vec![i as u32]);
    }
}

#[test]
fn export_of_a_module_is_refused_for_a_key_it_has() {
    let cx = Context::new(1);
    let mut m = module(&cx, &[]);
    assert!(m.export("k".to_string(), Exportee::Func(Func(0))));
    assert!(!m.export("k".to_string(), Exportee::GlobalVar(GlobalVar(0))));
    assert_eq!(m.export_count(), 1);
    assert_eq!(m.exportee(&"k".to_string()), Some(Exportee::Func(Func(0))));
    assert_eq!(Exportee::Func(Func(4)).as_use(), Use::Func(Func(4)));
    assert_eq!(Exportee::GlobalVar(GlobalVar(4)).as_use(), Use::GlobalVar(GlobalVar(4)));
}

#[test]
fn definitions_are_compared_and_copied_by_value() {
    let d = def(&[1, 2], &[Use::Type(Type(0)), Use::Func(Func(1))]);
    assert!(d.same(&d.duplicate()));
    assert!(!d.same(&def(&[1, 2], &[Use::Type(Type(0))])));
    assert!(!d.same(&def(&[1, 3], &[Use::Type(Type(0)), Use::Func(Func(1))])));
    assert!(!d.same(&def(&[1, 2], &[Use::Type(Type(0)), Use::Func(Func(2))])));
    assert!(!d.same(&def(&[1, 2], &[Use::Const(Const(0)), Use::Func(Func(1))])));
    assert!(!d.same(&def(&[1, 2], &[Use::DataInstForm(DataInstForm(0)), Use::Func(Func(1))])));
}

#[test]
fn modules_built_through_a_context_are_mergeable() {
    let Setup { cx, mergee, merged, .. } = setup();
    assert!(mergee.is_valid_in(&cx));
    assert!(merged.is_valid_in(&cx));
    assert!(spirt::collect::is_closed_in(&cx, &merged));
    assert!(spirt::merge::is_mergeable(&mergee, &merged, &cx));
    assert_eq!(merged.global_var_count(), 2);
    assert_eq!(merged.func_count(), 2);
    assert_eq!(mergee.global_var_count(), 1);
    let closure = spirt::collect::collect_closure(&cx, &merged).unwrap();
    assert_eq!(closure.global_vars, vec![1]);
    assert_eq!(closure.funcs, vec![1]);
}

#[test]
fn a_module_of_another_context_is_not_mergeable() {
    let Setup { mergee, merged, .. } = setup();
    let mut other = Context::new(2);
    assert!(!mergee.is_valid_in(&other));
    assert!(!spirt::merge::is_mergeable(&mergee, &merged, &other));
    // Handles in range do not make a module one of another context.
    let t = other.intern_type(def(&[1], &[]));
    let mut stranger = module(&other, &[X, Y]);
    let gv = stranger.define_global_var(&mut other, def(&[5], &[Use::Type(t)]));
    assert!(stranger.export("gv".to_string(), Exportee::GlobalVar(gv)));
    assert!(stranger.is_valid_in(&other));
    let Setup { cx, mergee, .. } = setup();
    assert!(cx.use_is_valid(Use::GlobalVar(gv)) && cx.use_is_valid(Use::Type(t)));
    assert!(!stranger.is_valid_in(&cx));
    assert!(!spirt::merge::is_mergeable(&mergee, &stranger, &cx));
    assert_eq!(stranger.context_id(), 2);
    assert_eq!(mergee.context_id(), cx.id());
}

#[test]
fn a_module_that_lacks_what_it_reaches_is_not_mergeable() {
    let mut cx = Context::new(1);
    let mergee = module(&cx, &[]);
    let mut owner = module(&cx, &[]);
    let gv = owner.define_global_var(&mut cx, def(&[1], &[]));
    let ptr = cx.intern_const(def(&[2], &[Use::GlobalVar(gv)]));
    let mut merged = module(&cx, &[]);
    let f = merged.define_func(&mut cx, def(&[3], &[Use::Const(ptr)]));
    // While nothing is exported, nothing is reached.
    assert!(spirt::collect::is_closed_in(&cx, &merged));
    assert!(merged.export("f".to_string(), Exportee::Func(f)));
    assert!(merged.is_valid_in(&cx));
    assert!(!spirt::collect::is_closed_in(&cx, &merged));
    assert!(spirt::collect::collect_closure(&cx, &merged).is_none());
    assert!(!spirt::merge::is_mergeable(&mergee, &merged, &cx));
    // An export of a declaration that the module lacks.
    let mut dangling = module(&cx, &[]);
    assert!(dangling.export("gv".to_string(), Exportee::GlobalVar(gv)));
    assert!(!spirt::collect::is_closed_in(&cx, &dangling));
}

#[test]
fn validity_of_references_is_checked() {
    let mut cx = Context::new(1);
    let t = cx.intern_type(def(&[1], &[]));
    assert!(cx.use_is_valid(Use::Type(t)));
    assert!(!cx.use_is_valid(Use::Const(Const(t.0))));
    assert!(!cx.use_is_valid(Use::Type(Type(1))));
    assert!(!cx.use_is_valid(Use::GlobalVar(GlobalVar(0))));
    assert!(!cx.use_is_valid(Use::Func(Func(0))));
    assert!(cx.def_is_valid(&def(&[], &[Use::Type(t), Use::Type(t)])));
    assert!(!cx.def_is_valid(&def(&[], &[Use::Type(t), Use::DataInstForm(DataInstForm(0))])));
    assert!(cx.has_global_var_room());
    assert!(cx.has_func_room());
    let mut m = module(&cx, &[]);
    let gv = m.define_global_var(&mut cx, def(&[], &[Use::Type(t)]));
    assert!(cx.use_is_valid(Use::GlobalVar(gv)));
    assert!(m.is_valid_in(&cx));
    m.set_global_var(gv, def(&[], &[Use::Func(Func(9))]));
    assert!(!m.is_valid_in(&cx));
}
