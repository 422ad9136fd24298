use ffickle_late::error::CheckError;
use ffickle_late::lint::{
    lint_disabled, lint_registered, FnKind, ForeignItemKind, Level, Lint, SpecAbi,
};
use ffickle_late::report::FnDecl;
use ffickle_late::store::{FfickleLate, ForeignItemType};
use ffickle_late::ty::{AbiKind, FnSig, Ty, TyCtxt, TyData, TyKind, UintTy};

fn add(tcx: &mut TyCtxt, name: &str, kind: TyKind) -> Ty {
    let ty = tcx.declare();
    tcx.describe(
        ty,
        TyData {
            kind,
            str_rep: String::from(name),
            is_sized: true,
            has_opaque_types: false,
            components: vec![],
            normalized: Some(ty),
            size_skeleton: None,
            layout: None,
        },
    );
    ty
}

fn lint(name: &str, level: Level) -> Lint {
    Lint { name: String::from(name), level }
}

fn lints(decl: Level, defn: Level) -> Vec<Lint> {
    vec![
        lint("DEAD_CODE", Level::Allow),
        lint("IMPROPER_CTYPES", decl),
        lint("IMPROPER_CTYPES_DEFINITIONS", defn),
    ]
}

fn abi(kind: AbiKind, name: &str) -> SpecAbi {
    SpecAbi { kind, name: String::from(name), display: format!("\"{}\"", name) }
}

fn sig(inputs: Vec<Ty>, output: Ty) -> FnSig {
    FnSig { abi: AbiKind::Foreign, inputs, output }
}

fn places(n: usize) -> FnDecl {
    FnDecl { inputs: (0..n).map(|i| format!("a.rs:{}", i)).collect(), output: None }
}

#[test]
fn the_first_lint_of_a_name_decides() {
    let all = vec![
        lint("A", Level::Warn),
        lint("B", Level::Allow),
        lint("A", Level::Allow),
        lint("C", Level::Forbid),
    ];
    assert!(!lint_disabled(&all, "A"));
    assert!(lint_disabled(&all, "B"));
    assert!(!lint_disabled(&all, "C"));
    for name in ["A", "B", "C"] {
        assert!(lint_registered(&all, name));
    }
    assert!(!lint_registered(&all, "D"));
    assert!(!lint_registered(&all, "a"));
    assert!(!lint_registered(&vec![], "A"));
    for level in [Level::Expect, Level::Warn, Level::ForceWarn, Level::Deny, Level::Forbid] {
        assert!(!lint_disabled(&vec![lint("A", level)], "A"));
    }
}

#[test]
fn the_crate_levels_are_noted() {
    let mut store = FfickleLate::default();
    assert_eq!(store.check_crate(&lints(Level::Allow, Level::Warn)), Ok(()));
    assert!(store.decl_lint_disabled_for_crate);
    assert!(!store.defn_lint_disabled_for_crate);
    assert_eq!(store.check_crate(&lints(Level::Deny, Level::Allow)), Ok(()));
    assert!(!store.decl_lint_disabled_for_crate);
    assert!(store.defn_lint_disabled_for_crate);
    assert_eq!(store.check_crate(&vec![]), Err(CheckError::UnknownLint));
    assert!(store.defn_lint_disabled_for_crate);
    assert_eq!(
        store.check_crate(&vec![lint("IMPROPER_CTYPES", Level::Warn)]),
        Err(CheckError::UnknownLint)
    );
}

#[test]
fn improper_functions_are_recorded() {
    let mut tcx = TyCtxt::new();
    let string = add(&mut tcx, "str", TyKind::Str);
    let byte = add(&mut tcx, "u8", TyKind::Uint(UintTy::U8));
    let mut store = FfickleLate::default();
    let all = lints(Level::Warn, Level::Allow);
    let kind = FnKind::ItemFn(abi(AbiKind::Foreign, "C"));
    let r = store.check_fn(&tcx, &all, &kind, &sig(vec![byte, string], byte), &places(2));
    assert_eq!(r, Ok(()));
    assert_eq!(store.rust_functions.total_items, 1);
    assert_eq!(store.rust_functions.abis[0].name, "C");
    assert_eq!(store.rust_functions.abis[0].count, 1);
    let item = &store.rust_functions.item_error_counts[0];
    assert!(item.ignored);
    assert_eq!(item.locations[&0], vec!["a.rs:1"]);
    assert_eq!(store.error_id_map[&0].abi, "C");
    assert_eq!(store.error_id_map[&0].str_rep, "str");
}

#[test]
fn clean_functions_are_only_counted() {
    let mut tcx = TyCtxt::new();
    let byte = add(&mut tcx, "u8", TyKind::Uint(UintTy::U8));
    let mut store = FfickleLate::default();
    let kind = FnKind::Method(abi(AbiKind::Foreign, "system"));
    // Without errors the lints are not asked for.
    let r = store.check_fn(&tcx, &vec![], &kind, &sig(vec![byte], byte), &places(1));
    assert_eq!(r, Ok(()));
    assert_eq!(store.rust_functions.total_items, 0);
    assert_eq!(store.rust_functions.abis[0].name, "system");
}

#[test]
fn rust_functions_and_closures_are_not_checked() {
    let mut tcx = TyCtxt::new();
    let string = add(&mut tcx, "str", TyKind::Str);
    let mut store = FfickleLate::default();
    let all = lints(Level::Warn, Level::Warn);
    let s = sig(vec![string], string);
    let kind = FnKind::ItemFn(abi(AbiKind::Rust, "Rust"));
    assert_eq!(store.check_fn(&tcx, &all, &kind, &s, &places(1)), Ok(()));
    assert_eq!(store.check_fn(&tcx, &all, &FnKind::Closure, &s, &places(1)), Ok(()));
    assert_eq!(store.error_id_count, 0);
    assert_eq!(store.rust_functions.total_items, 0);
    assert_eq!(store.rust_functions.abis.len(), 1);
    assert_eq!(store.rust_functions.abis[0].count, 1);
}

#[test]
fn a_failed_check_changes_nothing() {
    let mut tcx = TyCtxt::new();
    let missing = tcx.declare();
    let string = add(&mut tcx, "str", TyKind::Str);
    let mut store = FfickleLate::default();
    let all = lints(Level::Warn, Level::Warn);
    let kind = FnKind::ItemFn(abi(AbiKind::Foreign, "C"));
    let c = abi(AbiKind::Foreign, "C");
    let s = sig(vec![string, missing], string);
    assert_eq!(
        store.check_fn(&tcx, &all, &kind, &s, &places(2)),
        Err(CheckError::Undescribed(missing))
    );
    assert_eq!(
        store.check_fn(&tcx, &vec![], &kind, &sig(vec![string], string), &places(1)),
        Err(CheckError::UnknownLint)
    );
    assert_eq!(
        store.check_foreign_item(
            &tcx,
            &all,
            &c,
            &ForeignItemKind::Static(missing, String::from("a.rs"))
        ),
        Err(CheckError::Undescribed(missing))
    );
    assert_eq!(
        store.check_foreign_item(
            &tcx,
            &vec![],
            &c,
            &ForeignItemKind::Static(string, String::from("a.rs"))
        ),
        Err(CheckError::UnknownLint)
    );
    assert!(store.rust_functions.abis.is_empty());
    assert!(store.static_items.abis.is_empty());
    assert_eq!(store.error_id_count, 0);
}

#[test]
fn foreign_items_are_counted_in_any_case() {
    let mut tcx = TyCtxt::new();
    let byte = add(&mut tcx, "u8", TyKind::Uint(UintTy::U8));
    let string = add(&mut tcx, "str", TyKind::Str);
    let array = add(&mut tcx, "[u8; 4]", TyKind::Array(byte));
    let mut store = FfickleLate::default();
    let all = lints(Level::Allow, Level::Warn);
    let c = abi(AbiKind::Foreign, "C");
    let clean = ForeignItemKind::Fn(sig(vec![byte], byte), places(1));
    let improper = ForeignItemKind::Fn(sig(vec![string], byte), places(1));
    assert_eq!(store.check_foreign_item(&tcx, &all, &c, &clean), Ok(()));
    assert_eq!(store.check_foreign_item(&tcx, &all, &c, &improper), Ok(()));
    assert_eq!(store.foreign_functions.total_items, 2);
    assert_eq!(store.foreign_functions.abis[0].count, 2);
    assert_eq!(store.foreign_functions.item_error_counts.len(), 1);
    assert_eq!(store.foreign_functions.item_error_counts[0].index, 1);
    assert!(store.foreign_functions.item_error_counts[0].ignored);
    let table = ForeignItemKind::Static(array, String::from("b.rs"));
    let text = ForeignItemKind::Static(string, String::from("b.rs"));
    assert_eq!(store.check_foreign_item(&tcx, &all, &c, &table), Ok(()));
    assert_eq!(store.check_foreign_item(&tcx, &all, &c, &text), Ok(()));
    assert_eq!(store.static_items.total_items, 2);
    assert_eq!(store.static_items.item_error_counts.len(), 1);
    assert_eq!(store.static_items.item_error_counts[0].counts[&0], 1);
    assert_eq!(store.error_id_count, 1);
    assert_eq!(store.check_foreign_item(&tcx, &all, &c, &ForeignItemKind::Type), Ok(()));
    assert_eq!(store.rust_functions.total_items, 0);
}

#[test]
fn foreign_items_of_rust_conventions_are_not_checked() {
    let mut tcx = TyCtxt::new();
    let string = add(&mut tcx, "str", TyKind::Str);
    let mut store = FfickleLate::default();
    let intrinsic = abi(AbiKind::RustIntrinsic, "rust-intrinsic");
    let kind = ForeignItemKind::Fn(sig(vec![string], string), places(1));
    assert_eq!(store.check_foreign_item(&tcx, &vec![], &intrinsic, &kind), Ok(()));
    assert_eq!(store.foreign_functions.total_items, 0);
    assert_eq!(store.foreign_functions.abis[0].name, "rust-intrinsic");
    assert_eq!(store.error_id_count, 0);
}

#[test]
fn only_the_count_needs_room_under_rust_conventions() {
    let mut tcx = TyCtxt::new();
    let string = add(&mut tcx, "str", TyKind::Str);
    let mut store = FfickleLate::default();
    store.rust_functions.total_items = usize::MAX;
    let rust = abi(AbiKind::Rust, "Rust");
    let c = abi(AbiKind::Foreign, "C");
    assert!(store.has_room_for_item(ForeignItemType::RustFn, &rust, usize::MAX));
    assert!(!store.has_room_for_item(ForeignItemType::RustFn, &c, 0));
    assert!(store.has_room_for_item(ForeignItemType::ForeignFn, &c, 1));
    let kind = FnKind::ItemFn(abi(AbiKind::Rust, "Rust"));
    let s = sig(vec![string], string);
    assert_eq!(store.check_fn(&tcx, &vec![], &kind, &s, &places(1)), Ok(()));
    assert_eq!(store.rust_functions.abis[0].count, 1);
    assert_eq!(store.rust_functions.total_items, usize::MAX);
    store.rust_functions.abis[0].count = usize::MAX;
    assert!(!store.has_room_for_item(ForeignItemType::RustFn, &rust, 0));
}

#[test]
fn counts_agree_after_any_calls() {
    let mut tcx = TyCtxt::new();
    let byte = add(&mut tcx, "u8", TyKind::Uint(UintTy::U8));
    let string = add(&mut tcx, "str", TyKind::Str);
    let missing = tcx.declare();
    let mut store = FfickleLate::default();
    let all = lints(Level::Warn, Level::Warn);
    for (kind, name) in [
        (AbiKind::Foreign, "C"),
        (AbiKind::Foreign, "system"),
        (AbiKind::RustIntrinsic, "rust-intrinsic"),
        (AbiKind::Foreign, "C"),
    ] {
        for ty in [byte, string, missing] {
            let s = sig(vec![ty], byte);
            let _ = store.check_fn(&tcx, &all, &FnKind::ItemFn(abi(kind, name)), &s, &places(1));
            let f = ForeignItemKind::Fn(sig(vec![ty], byte), places(1));
            let _ = store.check_foreign_item(&tcx, &all, &abi(kind, name), &f);
            let fixed = ForeignItemKind::Static(ty, String::from("a.rs"));
            let _ = store.check_foreign_item(&tcx, &all, &abi(kind, name), &fixed);
            let listed = store.rust_functions.item_error_counts.len();
            assert_eq!(store.rust_functions.total_items, listed);
            for tally in [&store.foreign_functions, &store.static_items] {
                let outside: usize = tally
                    .abis
                    .iter()
                    .filter(|abi| abi.name != "rust-intrinsic")
                    .map(|abi| abi.count)
                    .sum();
                assert_eq!(tally.total_items, outside);
            }
        }
    }
    assert_eq!(store.rust_functions.total_items, 3);
    assert_eq!(store.foreign_functions.total_items, 6);
    assert_eq!(store.static_items.total_items, 6);
}
