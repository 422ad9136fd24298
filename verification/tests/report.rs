use ffickle_late::error::{CheckError, Reason};
use ffickle_late::nullable::CItemKind;
use ffickle_late::opaque::find_opaque;
use ffickle_late::report::FnDecl;
use ffickle_late::ty::{
    tykind_discriminant, AbiKind, AdtDef, AdtKind, AliasKind, FieldDef, FnSig, ReprOptions, Ty,
    TyCtxt, TyData, TyKind, UintTy, VariantDef,
};
use ffickle_late::visitor::ImproperCTypesVisitor;

fn data(kind: TyKind, name: &str, ty: Ty) -> TyData {
    TyData {
        kind,
        str_rep: String::from(name),
        is_sized: true,
        has_opaque_types: false,
        components: vec![],
        normalized: Some(ty),
        size_skeleton: None,
        layout: None,
    }
}

fn add(tcx: &mut TyCtxt, name: &str, kind: TyKind) -> Ty {
    let ty = tcx.declare();
    tcx.describe(ty, data(kind, name, ty));
    ty
}

fn add_marked(tcx: &mut TyCtxt, name: &str, kind: TyKind, components: Vec<Ty>) -> Ty {
    let ty = tcx.declare();
    let mut d = data(kind, name, ty);
    d.has_opaque_types = true;
    d.components = components;
    tcx.describe(ty, d);
    ty
}

fn wrapper(inner: Ty, phantom: bool) -> TyKind {
    TyKind::Adt(AdtDef {
        kind: AdtKind::Struct,
        repr: ReprOptions { c: false, transparent: true, int: false },
        boxed_ty: None,
        is_phantom_data: phantom,
        is_unsafe_cell: false,
        nonnull_optimization_guaranteed: false,
        is_local: true,
        is_variant_list_non_exhaustive: false,
        variants: vec![VariantDef {
            fields: vec![FieldDef { ty: inner, declared_is_zst: None }],
            is_field_list_non_exhaustive: false,
            is_local: true,
        }],
    })
}

fn visitor(tcx: &TyCtxt) -> ImproperCTypesVisitor<'_> {
    ImproperCTypesVisitor { cx: tcx, mode: CItemKind::Declaration, errors: vec![] }
}

#[test]
fn reason_codes_count_up_from_zero() {
    let all = [
        Reason::Opaque,
        Reason::FnPtr,
        Reason::Tuple,
        Reason::Str,
        Reason::Dyn,
        Reason::Slice,
        Reason::Bit128,
        Reason::Char,
        Reason::EnumNonExhaustive,
        Reason::EnumNonExhaustiveVariant,
        Reason::EnumNoRepresentation,
        Reason::StructFieldless,
        Reason::UnionFieldless,
        Reason::StructNonExhaustive,
        Reason::UnionNonExhaustive,
        Reason::UnionLayout,
        Reason::StructLayout,
        Reason::Box,
        Reason::EnumPhantomData,
        Reason::StructZeroSized,
        Reason::Array,
        Reason::OnlyPhantomData,
    ];
    for (i, reason) in all.iter().enumerate() {
        assert_eq!(reason.code(), i as i32);
        assert_eq!(reason.code(), *reason as i32);
    }
}

#[test]
fn discriminants_follow_the_kinds() {
    assert_eq!(tykind_discriminant(&TyKind::Bool), 0);
    assert_eq!(tykind_discriminant(&TyKind::Char), 1);
    assert_eq!(tykind_discriminant(&TyKind::Uint(UintTy::U8)), 3);
    assert_eq!(tykind_discriminant(&wrapper(0, false)), 5);
    assert_eq!(tykind_discriminant(&TyKind::Str), 7);
    assert_eq!(tykind_discriminant(&TyKind::Array(0)), 8);
    assert_eq!(tykind_discriminant(&TyKind::Slice(0)), 9);
    assert_eq!(tykind_discriminant(&TyKind::Dynamic), 14);
    assert_eq!(tykind_discriminant(&TyKind::Tuple(vec![])), 19);
    assert_eq!(tykind_discriminant(&TyKind::Error), 24);
    assert_eq!(tykind_discriminant(&TyKind::Alias(AliasKind::Opaque)), 25);
}

#[test]
fn an_emitted_error_says_what_and_where() {
    let mut tcx = TyCtxt::new();
    let string = add(&mut tcx, "str", TyKind::Str);
    let mut vis = visitor(&tcx);
    assert_eq!(vis.emit_ffi_unsafe_type_lint(string, "a.rs:1:2", Reason::Str), Ok(()));
    assert_eq!(vis.errors.len(), 1);
    assert_eq!(vis.errors[0].discriminant, 7);
    assert_eq!(vis.errors[0].str_rep, "str");
    assert_eq!(vis.errors[0].location, "a.rs:1:2");
    assert_eq!(vis.errors[0].reason, 3);
    assert_eq!(
        vis.emit_ffi_unsafe_type_lint(9, "a.rs:1:2", Reason::Str),
        Err(CheckError::Undescribed(9))
    );
    assert_eq!(vis.errors.len(), 1);
}

#[test]
fn arrays_are_reported_unless_static() {
    let mut tcx = TyCtxt::new();
    let byte = add(&mut tcx, "u8", TyKind::Uint(UintTy::U8));
    let array = add(&mut tcx, "[u8; 4]", TyKind::Array(byte));
    let mut vis = visitor(&tcx);
    assert_eq!(vis.check_for_array_ty("a.rs", byte), Ok(false));
    assert_eq!(vis.check_for_array_ty("a.rs", array), Ok(true));
    assert_eq!(vis.errors[0].reason, Reason::Array.code());
    let mut vis = visitor(&tcx);
    assert_eq!(vis.check_type_for_ffi_and_report_errors("a.rs", array, false, false), Ok(()));
    assert_eq!(vis.errors.len(), 1);
    assert_eq!(vis.errors[0].str_rep, "[u8; 4]");
    let mut vis = visitor(&tcx);
    assert_eq!(vis.check_foreign_static(array, "a.rs"), Ok(()));
    assert_eq!(vis.errors.len(), 0);
}

#[test]
fn the_first_opaque_type_is_reported_alone() {
    let mut tcx = TyCtxt::new();
    let string = add(&mut tcx, "str", TyKind::Str);
    let one = add_marked(&mut tcx, "impl A", TyKind::Alias(AliasKind::Opaque), vec![]);
    let two = add_marked(&mut tcx, "impl B", TyKind::Alias(AliasKind::Opaque), vec![]);
    let inner = add_marked(&mut tcx, "(str, impl A)", TyKind::Tuple(vec![]), vec![string, one]);
    let outer = add_marked(&mut tcx, "((..), impl B)", TyKind::Tuple(vec![]), vec![inner, two]);
    assert_eq!(find_opaque(&tcx, outer), Ok(Some(one)));
    assert_eq!(find_opaque(&tcx, string), Ok(None));
    let mut vis = visitor(&tcx);
    assert_eq!(vis.check_for_opaque_ty("a.rs", string), Ok(false));
    assert_eq!(vis.check_type_for_ffi_and_report_errors("a.rs", outer, false, false), Ok(()));
    assert_eq!(vis.errors.len(), 1);
    assert_eq!(vis.errors[0].str_rep, "impl A");
    assert_eq!(vis.errors[0].reason, 0);
    assert_eq!(vis.errors[0].discriminant, 25);
}

#[test]
fn a_type_among_its_own_components_is_an_error() {
    let mut tcx = TyCtxt::new();
    let ty = add_marked(&mut tcx, "loop", TyKind::Tuple(vec![]), vec![0]);
    assert_eq!(find_opaque(&tcx, ty), Err(CheckError::InfiniteType(ty)));
}

#[test]
fn opaque_types_are_sought_after_normalization() {
    let mut tcx = TyCtxt::new();
    let byte = add(&mut tcx, "u8", TyKind::Uint(UintTy::U8));
    let opaque = tcx.declare();
    let mut d = data(TyKind::Alias(AliasKind::Opaque), "impl A", opaque);
    d.has_opaque_types = true;
    d.normalized = Some(byte);
    tcx.describe(opaque, d);
    assert_eq!(find_opaque(&tcx, opaque), Ok(None));
    let mut vis = visitor(&tcx);
    assert_eq!(vis.check_type_for_ffi_and_report_errors("a.rs", opaque, false, false), Ok(()));
    assert_eq!(vis.errors.len(), 0);
}

#[test]
fn unit_is_fine_as_a_return_type_only() {
    let mut tcx = TyCtxt::new();
    let unit = add(&mut tcx, "()", TyKind::Tuple(vec![]));
    let hidden = add(&mut tcx, "W<()>", wrapper(unit, false));
    for ty in [unit, hidden] {
        let mut vis = visitor(&tcx);
        assert_eq!(vis.check_type_for_ffi_and_report_errors("a.rs", ty, false, true), Ok(()));
        assert_eq!(vis.errors.len(), 0);
        assert_eq!(vis.check_type_for_ffi_and_report_errors("a.rs", ty, false, false), Ok(()));
        assert_eq!(vis.errors.len(), 1);
        assert_eq!(vis.errors[0].str_rep, "()");
        assert_eq!(vis.errors[0].reason, Reason::Tuple.code());
    }
}

#[test]
fn phantom_data_is_reported() {
    let mut tcx = TyCtxt::new();
    let byte = add(&mut tcx, "u8", TyKind::Uint(UintTy::U8));
    let ghost = add(&mut tcx, "PhantomData<u8>", wrapper(byte, true));
    let mut vis = visitor(&tcx);
    assert_eq!(vis.check_type_for_ffi_and_report_errors("a.rs", ghost, false, true), Ok(()));
    assert_eq!(vis.errors[0].reason, 21);
    assert_eq!(vis.errors[0].str_rep, "PhantomData<u8>");
}

#[test]
fn functions_are_reported_input_by_input() {
    let mut tcx = TyCtxt::new();
    let byte = add(&mut tcx, "u8", TyKind::Uint(UintTy::U8));
    let string = add(&mut tcx, "str", TyKind::Str);
    let character = add(&mut tcx, "char", TyKind::Char);
    let sig = FnSig {
        abi: AbiKind::Foreign,
        inputs: vec![string, byte, character],
        output: character,
    };
    let at = |places: &[&str]| places.iter().map(|p| p.to_string()).collect::<Vec<String>>();
    let decl = FnDecl { inputs: at(&["1", "2", "3"]), output: Some(String::from("4")) };
    let mut vis = visitor(&tcx);
    assert_eq!(vis.check_foreign_fn(&sig, &decl), Ok(()));
    let found: Vec<(&str, &str)> =
        vis.errors.iter().map(|e| (e.str_rep.as_str(), e.location.as_str())).collect();
    assert_eq!(found, vec![("str", "1"), ("char", "3"), ("char", "4")]);
    // Without a written output, and with fewer places than types.
    let decl = FnDecl { inputs: at(&["1", "2"]), output: None };
    let mut vis = visitor(&tcx);
    assert_eq!(vis.check_foreign_fn(&sig, &decl), Ok(()));
    assert_eq!(vis.errors.len(), 1);
    // With fewer types than places.
    let short = FnSig { abi: AbiKind::Foreign, inputs: vec![string], output: byte };
    let decl = FnDecl { inputs: at(&["1", "2", "3"]), output: None };
    let mut vis = visitor(&tcx);
    assert_eq!(vis.check_foreign_fn(&short, &decl), Ok(()));
    assert_eq!(vis.errors.len(), 1);
}

#[test]
fn a_failed_check_records_nothing() {
    let mut tcx = TyCtxt::new();
    let string = add(&mut tcx, "str", TyKind::Str);
    let missing = tcx.declare();
    let sig = FnSig { abi: AbiKind::Foreign, inputs: vec![string, missing], output: string };
    let decl = FnDecl {
        inputs: vec![String::from("1"), String::from("2")],
        output: Some(String::from("3")),
    };
    let mut vis = visitor(&tcx);
    assert_eq!(vis.check_foreign_fn(&sig, &decl), Err(CheckError::Undescribed(missing)));
    assert_eq!(vis.errors.len(), 0);
    let sig = FnSig { abi: AbiKind::Foreign, inputs: vec![string], output: missing };
    assert_eq!(vis.check_foreign_fn(&sig, &decl), Err(CheckError::Undescribed(missing)));
    assert_eq!(vis.errors.len(), 0);
}
