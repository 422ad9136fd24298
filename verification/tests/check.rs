use std::collections::HashSet;

use ffickle_late::check::FfiResult;
use ffickle_late::error::{CheckError, Reason};
use ffickle_late::nullable::CItemKind;
use ffickle_late::ty::{
    AbiKind, AdtDef, AdtKind, AliasKind, FieldDef, FloatTy, FnSig, IntTy, Layout, Mutability,
    ReprOptions, Scalar, SizeSkeleton, Ty, TyCtxt, TyData, TyKind, TypeAndMut, UintTy, VariantDef,
};
use ffickle_late::visitor::ImproperCTypesVisitor;

fn data(kind: TyKind, ty: Ty) -> TyData {
    TyData {
        kind,
        str_rep: String::from("t"),
        is_sized: true,
        has_opaque_types: false,
        components: vec![],
        normalized: Some(ty),
        size_skeleton: Some(SizeSkeleton::Known(8)),
        layout: Some(Layout::Other),
    }
}

fn add(tcx: &mut TyCtxt, kind: TyKind) -> Ty {
    let ty = tcx.declare();
    tcx.describe(ty, data(kind, ty));
    ty
}

fn add_unsized(tcx: &mut TyCtxt, kind: TyKind) -> Ty {
    let ty = tcx.declare();
    let mut d = data(kind, ty);
    d.is_sized = false;
    tcx.describe(ty, d);
    ty
}

fn field(ty: Ty) -> FieldDef {
    FieldDef { ty, declared_is_zst: Some(false) }
}

fn zst_field(ty: Ty) -> FieldDef {
    FieldDef { ty, declared_is_zst: Some(true) }
}

fn variant(fields: Vec<FieldDef>) -> VariantDef {
    VariantDef { fields, is_field_list_non_exhaustive: false, is_local: true }
}

const REPR_C: ReprOptions = ReprOptions { c: true, transparent: false, int: false };
const REPR_RUST: ReprOptions = ReprOptions { c: false, transparent: false, int: false };
const REPR_TRANSPARENT: ReprOptions = ReprOptions { c: false, transparent: true, int: false };
const REPR_INT: ReprOptions = ReprOptions { c: false, transparent: false, int: true };

fn adt(kind: AdtKind, repr: ReprOptions, variants: Vec<VariantDef>) -> AdtDef {
    AdtDef {
        kind,
        repr,
        boxed_ty: None,
        is_phantom_data: false,
        is_unsafe_cell: false,
        nonnull_optimization_guaranteed: false,
        is_local: true,
        is_variant_list_non_exhaustive: false,
        variants,
    }
}

fn phantom() -> TyKind {
    let mut def = adt(AdtKind::Struct, REPR_RUST, vec![variant(vec![])]);
    def.is_phantom_data = true;
    TyKind::Adt(def)
}

fn boxed(inner: Ty) -> TyKind {
    let mut def = adt(AdtKind::Struct, REPR_RUST, vec![variant(vec![field(inner)])]);
    def.boxed_ty = Some(inner);
    TyKind::Adt(def)
}

fn strct(repr: ReprOptions, fields: Vec<FieldDef>) -> TyKind {
    TyKind::Adt(adt(AdtKind::Struct, repr, vec![variant(fields)]))
}

fn ptr(ty: Ty) -> TyKind {
    TyKind::RawPtr(TypeAndMut { ty, mutbl: Mutability::Mut })
}

fn reference(ty: Ty) -> TyKind {
    TyKind::Ref(TypeAndMut { ty, mutbl: Mutability::Not })
}

fn run(tcx: &TyCtxt, mode: CItemKind, ty: Ty) -> Result<FfiResult, CheckError> {
    let vis = ImproperCTypesVisitor { cx: tcx, mode, errors: vec![] };
    let mut cache: HashSet<Ty> = HashSet::new();
    vis.check_type_for_ffi(&mut cache, ty)
}

fn decl(tcx: &TyCtxt, ty: Ty) -> Result<FfiResult, CheckError> {
    run(tcx, CItemKind::Declaration, ty)
}

fn defn(tcx: &TyCtxt, ty: Ty) -> Result<FfiResult, CheckError> {
    run(tcx, CItemKind::Definition, ty)
}

fn bad(ty: Ty, reason: Reason) -> Result<FfiResult, CheckError> {
    Ok(FfiResult::FfiUnsafe { ty, reason })
}

const SAFE: Result<FfiResult, CheckError> = Ok(FfiResult::FfiSafe);

#[test]
fn primitives_are_safe() {
    let mut tcx = TyCtxt::new();
    for kind in vec![
        TyKind::Bool,
        TyKind::Int(IntTy::I64),
        TyKind::Uint(UintTy::Usize),
        TyKind::Float(FloatTy::F64),
        TyKind::Never,
        TyKind::Foreign,
    ] {
        let ty = add(&mut tcx, kind);
        assert_eq!(decl(&tcx, ty), SAFE);
        assert_eq!(defn(&tcx, ty), SAFE);
    }
}

#[test]
fn improper_kinds_have_their_reasons() {
    let mut tcx = TyCtxt::new();
    let byte = add(&mut tcx, TyKind::Uint(UintTy::U8));
    for (kind, reason) in vec![
        (TyKind::Char, Reason::Char),
        (TyKind::Int(IntTy::I128), Reason::Bit128),
        (TyKind::Uint(UintTy::U128), Reason::Bit128),
        (TyKind::Slice(byte), Reason::Slice),
        (TyKind::Dynamic, Reason::Dyn),
        (TyKind::Str, Reason::Str),
        (TyKind::Tuple(vec![byte]), Reason::Tuple),
        (TyKind::Tuple(vec![]), Reason::Tuple),
        (TyKind::Alias(AliasKind::Opaque), Reason::Opaque),
    ] {
        let ty = add(&mut tcx, kind);
        assert_eq!(decl(&tcx, ty), bad(ty, reason));
    }
}

#[test]
fn unexpected_kinds_give_no_verdict() {
    let mut tcx = TyCtxt::new();
    for kind in vec![
        TyKind::Infer,
        TyKind::Bound,
        TyKind::Error,
        TyKind::Closure,
        TyKind::Generator,
        TyKind::GeneratorWitness,
        TyKind::Placeholder,
        TyKind::FnDef,
    ] {
        let ty = add(&mut tcx, kind);
        assert_eq!(decl(&tcx, ty), Err(CheckError::UnexpectedType(ty)));
        assert_eq!(defn(&tcx, ty), Err(CheckError::UnexpectedType(ty)));
    }
}

#[test]
fn generic_parameters_are_ignored_in_definitions_only() {
    let mut tcx = TyCtxt::new();
    let param = add(&mut tcx, TyKind::Param);
    let projection = add(&mut tcx, TyKind::Alias(AliasKind::Projection));
    assert_eq!(defn(&tcx, param), SAFE);
    assert_eq!(defn(&tcx, projection), SAFE);
    assert_eq!(decl(&tcx, param), Err(CheckError::UnexpectedType(param)));
    assert_eq!(decl(&tcx, projection), Err(CheckError::UnexpectedType(projection)));
}

#[test]
fn undescribed_types_are_asked_for() {
    let mut tcx = TyCtxt::new();
    let ty = tcx.declare();
    assert_eq!(decl(&tcx, ty), Err(CheckError::Undescribed(ty)));
    assert_eq!(decl(&tcx, 7), Err(CheckError::Undescribed(7)));
    let pointer = add(&mut tcx, ptr(ty));
    assert_eq!(decl(&tcx, pointer), Err(CheckError::Undescribed(ty)));
    tcx.describe(ty, data(TyKind::Str, ty));
    assert_eq!(decl(&tcx, pointer), bad(ty, Reason::Str));
}

#[test]
fn pointers_are_judged_by_what_they_point_to() {
    let mut tcx = TyCtxt::new();
    let unit = add(&mut tcx, TyKind::Tuple(vec![]));
    let string = add_unsized(&mut tcx, TyKind::Str);
    let character = add(&mut tcx, TyKind::Char);
    let void = add(&mut tcx, ptr(unit));
    let unit_ref = add(&mut tcx, reference(unit));
    let to_string = add(&mut tcx, ptr(string));
    let to_char = add(&mut tcx, reference(character));
    // A pointer to `()` is C's `void` pointer; a reference to it is not.
    assert_eq!(decl(&tcx, void), SAFE);
    assert_eq!(decl(&tcx, unit_ref), bad(unit, Reason::Tuple));
    assert_eq!(decl(&tcx, to_char), bad(character, Reason::Char));
    // In definitions pointers to sized types are fine.
    assert_eq!(defn(&tcx, to_char), SAFE);
    assert_eq!(defn(&tcx, to_string), bad(string, Reason::Str));
}

#[test]
fn boxes_are_safe_in_definitions_if_sized() {
    let mut tcx = TyCtxt::new();
    let character = add(&mut tcx, TyKind::Char);
    let string = add_unsized(&mut tcx, TyKind::Str);
    let sized_box = add(&mut tcx, boxed(character));
    let wide_box = add(&mut tcx, boxed(string));
    assert_eq!(defn(&tcx, sized_box), SAFE);
    assert_eq!(defn(&tcx, wide_box), bad(wide_box, Reason::Box));
    assert_eq!(decl(&tcx, sized_box), bad(sized_box, Reason::StructLayout));
}

#[test]
fn arrays_are_judged_by_their_elements() {
    let mut tcx = TyCtxt::new();
    let character = add(&mut tcx, TyKind::Char);
    let byte = add(&mut tcx, TyKind::Uint(UintTy::U8));
    let chars = add(&mut tcx, TyKind::Array(character));
    let bytes = add(&mut tcx, TyKind::Array(byte));
    assert_eq!(decl(&tcx, chars), bad(character, Reason::Char));
    assert_eq!(decl(&tcx, bytes), SAFE);
}

#[test]
fn function_pointers_are_judged_by_their_signature() {
    let mut tcx = TyCtxt::new();
    let unit = add(&mut tcx, TyKind::Tuple(vec![]));
    let character = add(&mut tcx, TyKind::Char);
    let string = add(&mut tcx, TyKind::Str);
    let byte = add(&mut tcx, TyKind::Uint(UintTy::U8));
    let sig = |abi, inputs, output| TyKind::FnPtr(FnSig { abi, inputs, output });
    for abi in vec![
        AbiKind::Rust,
        AbiKind::RustCall,
        AbiKind::RustIntrinsic,
        AbiKind::PlatformIntrinsic,
    ] {
        let internal = add(&mut tcx, sig(abi, vec![], unit));
        assert_eq!(decl(&tcx, internal), bad(internal, Reason::FnPtr));
    }
    let fine = add(&mut tcx, sig(AbiKind::Foreign, vec![byte], unit));
    assert_eq!(decl(&tcx, fine), SAFE);
    let output_first = add(&mut tcx, sig(AbiKind::Foreign, vec![string], character));
    assert_eq!(decl(&tcx, output_first), bad(character, Reason::Char));
    let second_input = add(&mut tcx, sig(AbiKind::Foreign, vec![byte, string], byte));
    assert_eq!(decl(&tcx, second_input), bad(string, Reason::Str));
}

#[test]
fn structs_and_unions_need_a_representation() {
    let mut tcx = TyCtxt::new();
    let byte = add(&mut tcx, TyKind::Uint(UintTy::U8));
    let plain = add(&mut tcx, strct(REPR_RUST, vec![field(byte)]));
    assert_eq!(decl(&tcx, plain), bad(plain, Reason::StructLayout));
    let union = add(
        &mut tcx,
        TyKind::Adt(adt(AdtKind::Union, REPR_RUST, vec![variant(vec![field(byte)])])),
    );
    assert_eq!(decl(&tcx, union), bad(union, Reason::UnionLayout));
    let good = add(&mut tcx, strct(REPR_C, vec![field(byte)]));
    assert_eq!(decl(&tcx, good), SAFE);
    let empty = add(&mut tcx, strct(REPR_C, vec![]));
    assert_eq!(decl(&tcx, empty), bad(empty, Reason::StructFieldless));
    let empty_union =
        add(&mut tcx, TyKind::Adt(adt(AdtKind::Union, REPR_C, vec![variant(vec![])])));
    assert_eq!(decl(&tcx, empty_union), bad(empty_union, Reason::UnionFieldless));
    let headless = add(&mut tcx, TyKind::Adt(adt(AdtKind::Struct, REPR_C, vec![])));
    assert_eq!(decl(&tcx, headless), Err(CheckError::NoVariant(headless)));
}

#[test]
fn foreign_non_exhaustive_structs_are_improper() {
    let mut tcx = TyCtxt::new();
    let byte = add(&mut tcx, TyKind::Uint(UintTy::U8));
    for (kind, reason) in vec![
        (AdtKind::Struct, Reason::StructNonExhaustive),
        (AdtKind::Union, Reason::UnionNonExhaustive),
    ] {
        let mut v = variant(vec![field(byte)]);
        v.is_field_list_non_exhaustive = true;
        let mut def = adt(kind, REPR_C, vec![v]);
        def.is_local = false;
        let ty = add(&mut tcx, TyKind::Adt(def));
        assert_eq!(decl(&tcx, ty), bad(ty, reason));
        let mut v = variant(vec![field(byte)]);
        v.is_field_list_non_exhaustive = true;
        let local = add(&mut tcx, TyKind::Adt(adt(kind, REPR_C, vec![v])));
        assert_eq!(decl(&tcx, local), SAFE);
    }
}

#[test]
fn transparent_structs_are_judged_by_their_field() {
    let mut tcx = TyCtxt::new();
    let character = add(&mut tcx, TyKind::Char);
    let byte = add(&mut tcx, TyKind::Uint(UintTy::U8));
    let wrapper = add(
        &mut tcx,
        strct(REPR_TRANSPARENT, vec![zst_field(character), field(byte)]),
    );
    assert_eq!(decl(&tcx, wrapper), SAFE);
    let unknown = add(
        &mut tcx,
        strct(
            REPR_TRANSPARENT,
            vec![FieldDef { ty: character, declared_is_zst: None }, field(byte)],
        ),
    );
    assert_eq!(decl(&tcx, unknown), bad(character, Reason::Char));
    let hollow = add(&mut tcx, strct(REPR_TRANSPARENT, vec![zst_field(byte)]));
    assert_eq!(decl(&tcx, hollow), bad(hollow, Reason::StructZeroSized));
}

#[test]
fn fields_are_normalized_unless_opaque() {
    let mut tcx = TyCtxt::new();
    let byte = add(&mut tcx, TyKind::Uint(UintTy::U8));
    let projection = tcx.declare();
    let mut d = data(TyKind::Alias(AliasKind::Projection), projection);
    d.normalized = Some(byte);
    tcx.describe(projection, d);
    let plain = add(&mut tcx, strct(REPR_C, vec![field(projection)]));
    assert_eq!(decl(&tcx, plain), SAFE);
    let opaque = tcx.declare();
    let mut d = data(TyKind::Alias(AliasKind::Opaque), opaque);
    d.normalized = Some(byte);
    d.has_opaque_types = true;
    tcx.describe(opaque, d);
    let hidden = add(&mut tcx, strct(REPR_C, vec![field(opaque)]));
    assert_eq!(decl(&tcx, hidden), bad(opaque, Reason::Opaque));
    let stuck = tcx.declare();
    let mut d = data(TyKind::Alias(AliasKind::Projection), stuck);
    d.normalized = None;
    tcx.describe(stuck, d);
    let holder = add(&mut tcx, strct(REPR_C, vec![field(stuck)]));
    assert_eq!(decl(&tcx, holder), Err(CheckError::CannotNormalize(stuck)));
}

#[test]
fn phantom_data_is_told_apart() {
    let mut tcx = TyCtxt::new();
    let byte = add(&mut tcx, TyKind::Uint(UintTy::U8));
    let ghost = add(&mut tcx, phantom());
    assert_eq!(decl(&tcx, ghost), Ok(FfiResult::FfiPhantom(ghost)));
    let only = add(&mut tcx, strct(REPR_C, vec![field(ghost)]));
    assert_eq!(decl(&tcx, only), Ok(FfiResult::FfiPhantom(only)));
    let mixed = add(&mut tcx, strct(REPR_C, vec![field(ghost), field(byte)]));
    assert_eq!(decl(&tcx, mixed), SAFE);
    let choice = add(
        &mut tcx,
        TyKind::Adt(adt(AdtKind::Enum, REPR_C, vec![variant(vec![field(ghost)])])),
    );
    assert_eq!(decl(&tcx, choice), bad(choice, Reason::EnumPhantomData));
    // The second meeting of the same phantom type counts as safe.
    let twice = add(&mut tcx, strct(REPR_C, vec![field(ghost), field(ghost)]));
    assert_eq!(decl(&tcx, twice), SAFE);
    let other = add(&mut tcx, phantom());
    let distinct = add(&mut tcx, strct(REPR_C, vec![field(ghost), field(other)]));
    assert_eq!(decl(&tcx, distinct), Ok(FfiResult::FfiPhantom(distinct)));
}

#[test]
fn a_check_is_cut_short_at_phantom_data_in_a_signature() {
    let mut tcx = TyCtxt::new();
    let unit = add(&mut tcx, TyKind::Tuple(vec![]));
    let byte = add(&mut tcx, TyKind::Uint(UintTy::U8));
    let character = add(&mut tcx, TyKind::Char);
    let ghost = add(&mut tcx, phantom());
    let callback = add(
        &mut tcx,
        TyKind::FnPtr(FnSig {
            abi: AbiKind::Foreign,
            inputs: vec![ghost, character],
            output: unit,
        }),
    );
    assert_eq!(decl(&tcx, callback), Ok(FfiResult::FfiPhantom(ghost)));
    let holder = add(&mut tcx, strct(REPR_C, vec![field(callback), field(byte)]));
    assert_eq!(decl(&tcx, holder), SAFE);
}

#[test]
fn enums_need_a_representation() {
    let mut tcx = TyCtxt::new();
    let byte = add(&mut tcx, TyKind::Uint(UintTy::U8));
    let never = add(&mut tcx, TyKind::Adt(adt(AdtKind::Enum, REPR_RUST, vec![])));
    assert_eq!(decl(&tcx, never), SAFE);
    let two = || vec![variant(vec![]), variant(vec![field(byte)])];
    let plain = add(&mut tcx, TyKind::Adt(adt(AdtKind::Enum, REPR_RUST, two())));
    assert_eq!(decl(&tcx, plain), bad(plain, Reason::EnumNoRepresentation));
    let sized = add(&mut tcx, TyKind::Adt(adt(AdtKind::Enum, REPR_INT, two())));
    assert_eq!(decl(&tcx, sized), SAFE);
    let c = add(&mut tcx, TyKind::Adt(adt(AdtKind::Enum, REPR_C, two())));
    assert_eq!(decl(&tcx, c), SAFE);
}

#[test]
fn foreign_non_exhaustive_enums_are_improper() {
    let mut tcx = TyCtxt::new();
    let byte = add(&mut tcx, TyKind::Uint(UintTy::U8));
    let mut def = adt(AdtKind::Enum, REPR_C, vec![variant(vec![field(byte)])]);
    def.is_local = false;
    def.is_variant_list_non_exhaustive = true;
    let ty = add(&mut tcx, TyKind::Adt(def));
    assert_eq!(decl(&tcx, ty), bad(ty, Reason::EnumNonExhaustive));
    let mut v = variant(vec![field(byte)]);
    v.is_field_list_non_exhaustive = true;
    v.is_local = false;
    let with_variant = add(
        &mut tcx,
        TyKind::Adt(adt(AdtKind::Enum, REPR_C, vec![variant(vec![field(byte)]), v])),
    );
    assert_eq!(decl(&tcx, with_variant), bad(with_variant, Reason::EnumNonExhaustiveVariant));
}

#[test]
fn option_of_a_reference_is_safe() {
    let mut tcx = TyCtxt::new();
    let byte = add(&mut tcx, TyKind::Uint(UintTy::U8));
    let pointer = tcx.declare();
    let mut d = data(reference(byte), pointer);
    d.layout = Some(Layout::Scalar(Scalar {
        valid_start: 1,
        valid_end: u64::MAX as u128,
        unsigned_int_max: u64::MAX as u128,
    }));
    tcx.describe(pointer, d);
    let option = add(
        &mut tcx,
        TyKind::Adt(adt(
            AdtKind::Enum,
            REPR_RUST,
            vec![variant(vec![]), variant(vec![field(pointer)])],
        )),
    );
    assert_eq!(decl(&tcx, option), SAFE);
    let wide = tcx.declare();
    let mut d = data(
        TyKind::Adt(adt(
            AdtKind::Enum,
            REPR_RUST,
            vec![variant(vec![field(pointer)]), variant(vec![])],
        )),
        wide,
    );
    d.size_skeleton = Some(SizeSkeleton::Known(16));
    tcx.describe(wide, d);
    assert_eq!(decl(&tcx, wide), Err(CheckError::NonnullOptimizationNotApplied(wide)));
}

#[test]
fn recursive_types_are_checked_once() {
    let mut tcx = TyCtxt::new();
    let list = tcx.declare();
    let pointer = add(&mut tcx, ptr(list));
    tcx.describe(list, data(strct(REPR_C, vec![field(pointer)]), list));
    assert_eq!(decl(&tcx, list), SAFE);
    let vis = ImproperCTypesVisitor { cx: &tcx, mode: CItemKind::Declaration, errors: vec![] };
    let mut cache: HashSet<Ty> = HashSet::new();
    assert_eq!(vis.check_type_for_ffi(&mut cache, list), SAFE);
    assert_eq!(cache.len(), 2);
    assert!(cache.contains(&list) && cache.contains(&pointer));
    // A type met before is not looked at again.
    let string = add(&mut tcx, TyKind::Str);
    let vis = ImproperCTypesVisitor { cx: &tcx, mode: CItemKind::Declaration, errors: vec![] };
    cache.insert(string);
    assert_eq!(vis.check_type_for_ffi(&mut cache, string), SAFE);
}

#[test]
fn the_first_improper_field_is_named() {
    let mut tcx = TyCtxt::new();
    let byte = add(&mut tcx, TyKind::Uint(UintTy::U8));
    let string = add(&mut tcx, TyKind::Str);
    let character = add(&mut tcx, TyKind::Char);
    let inner = add(&mut tcx, strct(REPR_C, vec![field(byte), field(string)]));
    let outer = add(&mut tcx, strct(REPR_C, vec![field(inner), field(character)]));
    assert_eq!(decl(&tcx, outer), bad(string, Reason::Str));
    let vis = ImproperCTypesVisitor { cx: &tcx, mode: CItemKind::Declaration, errors: vec![] };
    let mut cache: HashSet<Ty> = HashSet::new();
    assert_eq!(vis.check_field_type_for_ffi(&mut cache, &field(character)), bad(character, Reason::Char));
    let def = adt(AdtKind::Struct, REPR_C, vec![]);
    let mut cache: HashSet<Ty> = HashSet::new();
    assert_eq!(
        vis.check_variant_for_ffi(&mut cache, outer, &def, &variant(vec![])),
        SAFE
    );
}

#[test]
fn a_verdict_stands_when_more_is_described() {
    let mut tcx = TyCtxt::new();
    let later = tcx.declare();
    let character = add(&mut tcx, TyKind::Char);
    let ty = add(&mut tcx, strct(REPR_C, vec![field(character), field(later)]));
    let before = decl(&tcx, ty);
    assert_eq!(before, bad(character, Reason::Char));
    tcx.describe(later, data(TyKind::Str, later));
    assert_eq!(decl(&tcx, ty), before);
}
