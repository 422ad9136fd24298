use ffickle_late::error::CheckError;
use ffickle_late::nullable::{
    get_nullable_type, nonnull_optimization_guaranteed, repr_nullable_ptr,
    transparent_newtype_field, ty_is_known_nonnull, CItemKind, NullableTy,
};
use ffickle_late::ty::{
    AbiKind, AdtDef, AdtKind, FieldDef, FnSig, IntTy, Layout, Mutability, ReprOptions, Scalar,
    SizeSkeleton, Ty, TyCtxt, TyData, TyKind, TypeAndMut, UintTy, VariantDef,
};

const MAX: u128 = u64::MAX as u128;

fn data(kind: TyKind, ty: Ty) -> TyData {
    TyData {
        kind,
        str_rep: String::from("t"),
        is_sized: true,
        has_opaque_types: false,
        components: vec![],
        normalized: Some(ty),
        size_skeleton: Some(SizeSkeleton::Known(8)),
        layout: Some(Layout::Scalar(Scalar {
            valid_start: 1,
            valid_end: MAX,
            unsigned_int_max: MAX,
        })),
    }
}

fn add(tcx: &mut TyCtxt, kind: TyKind) -> Ty {
    let ty = tcx.declare();
    tcx.describe(ty, data(kind, ty));
    ty
}

fn variant(fields: Vec<FieldDef>) -> VariantDef {
    VariantDef { fields, is_field_list_non_exhaustive: false, is_local: true }
}

fn field(ty: Ty) -> FieldDef {
    FieldDef { ty, declared_is_zst: Some(false) }
}

fn zst(ty: Ty) -> FieldDef {
    FieldDef { ty, declared_is_zst: Some(true) }
}

fn def(kind: AdtKind, transparent: bool, variants: Vec<VariantDef>) -> AdtDef {
    AdtDef {
        kind,
        repr: ReprOptions { c: false, transparent, int: false },
        boxed_ty: None,
        is_phantom_data: false,
        is_unsafe_cell: false,
        nonnull_optimization_guaranteed: false,
        is_local: true,
        is_variant_list_non_exhaustive: false,
        variants,
    }
}

fn newtype(inner: Ty) -> AdtDef {
    def(AdtKind::Struct, true, vec![variant(vec![field(inner)])])
}

fn option(inner: Ty) -> TyKind {
    TyKind::Adt(def(AdtKind::Enum, false, vec![variant(vec![]), variant(vec![field(inner)])]))
}

fn reference(ty: Ty) -> TyKind {
    TyKind::Ref(TypeAndMut { ty, mutbl: Mutability::Mut })
}

fn fn_ptr(output: Ty) -> TyKind {
    TyKind::FnPtr(FnSig { abi: AbiKind::Foreign, inputs: vec![], output })
}

#[test]
fn transparent_field_is_the_first_of_non_zero_size() {
    let v = variant(vec![zst(0), zst(1), field(2), field(3)]);
    assert_eq!(transparent_newtype_field(&v), Some(&field(2)));
    let unknown = FieldDef { ty: 4, declared_is_zst: None };
    let v = variant(vec![zst(0), unknown, field(2)]);
    assert_eq!(transparent_newtype_field(&v), Some(&unknown));
    assert_eq!(transparent_newtype_field(&variant(vec![zst(0)])), None);
    assert_eq!(transparent_newtype_field(&variant(vec![])), None);
}

#[test]
fn pointers_and_marked_types_are_nonnull() {
    let mut tcx = TyCtxt::new();
    let byte = add(&mut tcx, TyKind::Uint(UintTy::U8));
    let raw = add(&mut tcx, TyKind::RawPtr(TypeAndMut { ty: byte, mutbl: Mutability::Not }));
    let re = add(&mut tcx, reference(byte));
    let f = add(&mut tcx, fn_ptr(byte));
    for (ty, nonnull) in [(byte, false), (raw, false), (re, true), (f, true)] {
        assert_eq!(ty_is_known_nonnull(&tcx, ty, CItemKind::Declaration), Ok(nonnull));
    }
    let mut marked = newtype(byte);
    marked.nonnull_optimization_guaranteed = true;
    assert!(nonnull_optimization_guaranteed(&marked));
    assert!(!nonnull_optimization_guaranteed(&newtype(byte)));
    let marked = add(&mut tcx, TyKind::Adt(marked));
    assert_eq!(ty_is_known_nonnull(&tcx, marked, CItemKind::Declaration), Ok(true));
}

#[test]
fn boxes_are_nonnull_in_definitions() {
    let mut tcx = TyCtxt::new();
    let byte = add(&mut tcx, TyKind::Uint(UintTy::U8));
    let mut b = def(AdtKind::Struct, false, vec![variant(vec![field(byte)])]);
    b.boxed_ty = Some(byte);
    let b = add(&mut tcx, TyKind::Adt(b));
    assert_eq!(ty_is_known_nonnull(&tcx, b, CItemKind::Definition), Ok(true));
    assert_eq!(ty_is_known_nonnull(&tcx, b, CItemKind::Declaration), Ok(false));
}

#[test]
fn wrappers_are_nonnull_as_what_they_wrap() {
    let mut tcx = TyCtxt::new();
    let byte = add(&mut tcx, TyKind::Uint(UintTy::U8));
    let re = add(&mut tcx, reference(byte));
    let one = add(&mut tcx, TyKind::Adt(newtype(re)));
    let two = add(&mut tcx, TyKind::Adt(newtype(one)));
    assert_eq!(ty_is_known_nonnull(&tcx, two, CItemKind::Declaration), Ok(true));
    assert_eq!(
        get_nullable_type(&tcx, two),
        Ok(Some(NullableTy::RawPtr(TypeAndMut { ty: byte, mutbl: Mutability::Mut })))
    );
    let mut cell = newtype(re);
    cell.is_unsafe_cell = true;
    let cell = add(&mut tcx, TyKind::Adt(cell));
    assert_eq!(ty_is_known_nonnull(&tcx, cell, CItemKind::Declaration), Ok(false));
    let union = add(
        &mut tcx,
        TyKind::Adt(def(AdtKind::Union, true, vec![variant(vec![field(re)])])),
    );
    assert_eq!(ty_is_known_nonnull(&tcx, union, CItemKind::Declaration), Ok(false));
    let opaque = add(
        &mut tcx,
        TyKind::Adt(def(AdtKind::Struct, false, vec![variant(vec![field(re)])])),
    );
    assert_eq!(ty_is_known_nonnull(&tcx, opaque, CItemKind::Declaration), Ok(false));
}

#[test]
fn a_type_inside_itself_is_an_error() {
    let mut tcx = TyCtxt::new();
    let ty = tcx.declare();
    tcx.describe(ty, data(TyKind::Adt(newtype(ty)), ty));
    assert_eq!(
        ty_is_known_nonnull(&tcx, ty, CItemKind::Declaration),
        Err(CheckError::InfiniteType(ty))
    );
    assert_eq!(get_nullable_type(&tcx, ty), Err(CheckError::InfiniteType(ty)));
}

#[test]
fn scalars_have_a_nullable_version() {
    let mut tcx = TyCtxt::new();
    let int = add(&mut tcx, TyKind::Int(IntTy::I32));
    let uint = add(&mut tcx, TyKind::Uint(UintTy::U8));
    let raw = add(&mut tcx, TyKind::RawPtr(TypeAndMut { ty: int, mutbl: Mutability::Not }));
    let f = add(&mut tcx, fn_ptr(int));
    for ty in [int, uint, raw, f] {
        assert_eq!(get_nullable_type(&tcx, ty), Ok(Some(NullableTy::Existing(ty))));
    }
    let character = add(&mut tcx, TyKind::Char);
    assert_eq!(get_nullable_type(&tcx, character), Ok(None));
    assert_eq!(get_nullable_type(&tcx, 99), Err(CheckError::Undescribed(99)));
    let hollow = add(
        &mut tcx,
        TyKind::Adt(def(AdtKind::Struct, true, vec![variant(vec![zst(int)])])),
    );
    assert_eq!(get_nullable_type(&tcx, hollow), Err(CheckError::WrongFieldCount(hollow)));
    let double = add(
        &mut tcx,
        TyKind::Adt(def(
            AdtKind::Enum,
            true,
            vec![variant(vec![field(int)]), variant(vec![field(int)])],
        )),
    );
    assert_eq!(get_nullable_type(&tcx, double), Err(CheckError::WrongFieldCount(double)));
}

fn add_with(tcx: &mut TyCtxt, kind: TyKind, layout: Option<Layout>) -> Ty {
    let ty = tcx.declare();
    let mut d = data(kind, ty);
    d.layout = layout;
    tcx.describe(ty, d);
    ty
}

#[test]
fn structs_that_are_no_scalars_have_no_nullable_version() {
    let mut tcx = TyCtxt::new();
    let int = add(&mut tcx, TyKind::Int(IntTy::I32));
    let plain = |fields| TyKind::Adt(def(AdtKind::Struct, false, vec![variant(fields)]));
    for layout in [Some(Layout::Other), None] {
        let pair = add_with(&mut tcx, plain(vec![field(int), field(int)]), layout);
        assert_eq!(get_nullable_type(&tcx, pair), Ok(None));
        let unit = add_with(&mut tcx, plain(vec![]), layout);
        assert_eq!(get_nullable_type(&tcx, unit), Ok(None));
        let empty = add_with(&mut tcx, TyKind::Adt(def(AdtKind::Enum, false, vec![])), layout);
        assert_eq!(get_nullable_type(&tcx, empty), Ok(None));
        let around = add_with(&mut tcx, TyKind::Adt(newtype(pair)), layout);
        assert_eq!(get_nullable_type(&tcx, around), Ok(None));
    }
    // A struct that is a single scalar in memory stands for its field.
    let scalar = add(&mut tcx, plain(vec![field(int)]));
    assert_eq!(get_nullable_type(&tcx, scalar), Ok(Some(NullableTy::Existing(int))));
    // So does a transparent one, whatever is known of its layout.
    let transparent = add_with(&mut tcx, TyKind::Adt(newtype(int)), None);
    assert_eq!(get_nullable_type(&tcx, transparent), Ok(Some(NullableTy::Existing(int))));
}

#[test]
fn option_of_a_box_is_a_raw_pointer_in_definitions() {
    let mut tcx = TyCtxt::new();
    let byte = add(&mut tcx, TyKind::Uint(UintTy::U8));
    let raw = add(&mut tcx, TyKind::RawPtr(TypeAndMut { ty: byte, mutbl: Mutability::Not }));
    let nonnull = add(&mut tcx, TyKind::Adt(newtype(raw)));
    let unique = add(&mut tcx, TyKind::Adt(newtype(nonnull)));
    let mut b = def(AdtKind::Struct, false, vec![variant(vec![field(unique), zst(byte)])]);
    b.boxed_ty = Some(byte);
    let b = add(&mut tcx, TyKind::Adt(b));
    let opt = add(&mut tcx, option(b));
    assert_eq!(
        repr_nullable_ptr(&tcx, opt, CItemKind::Definition),
        Ok(Some(NullableTy::Existing(raw)))
    );
    assert_eq!(repr_nullable_ptr(&tcx, opt, CItemKind::Declaration), Ok(None));
    let size = |ty| tcx.data(ty).unwrap().size_skeleton.unwrap();
    assert!(size(opt).same_size(size(raw)));
}

#[test]
fn option_like_enums_are_nullable_pointers() {
    let mut tcx = TyCtxt::new();
    let byte = add(&mut tcx, TyKind::Uint(UintTy::U8));
    let re = add(&mut tcx, reference(byte));
    let expected = NullableTy::RawPtr(TypeAndMut { ty: byte, mutbl: Mutability::Mut });
    let opt = add(&mut tcx, option(re));
    assert_eq!(repr_nullable_ptr(&tcx, opt, CItemKind::Declaration), Ok(Some(expected)));
    let reversed = add(
        &mut tcx,
        TyKind::Adt(def(AdtKind::Enum, false, vec![variant(vec![field(re)]), variant(vec![])])),
    );
    assert_eq!(repr_nullable_ptr(&tcx, reversed, CItemKind::Declaration), Ok(Some(expected)));
    for variants in vec![
        vec![variant(vec![field(re)])],
        vec![variant(vec![]), variant(vec![])],
        vec![variant(vec![field(re)]), variant(vec![field(re)])],
        vec![variant(vec![]), variant(vec![field(re), field(re)])],
        vec![variant(vec![]), variant(vec![field(re)]), variant(vec![])],
    ] {
        let ty = add(&mut tcx, TyKind::Adt(def(AdtKind::Enum, false, variants)));
        assert_eq!(repr_nullable_ptr(&tcx, ty, CItemKind::Declaration), Ok(None));
    }
    let of_byte = add(&mut tcx, option(byte));
    assert_eq!(repr_nullable_ptr(&tcx, of_byte, CItemKind::Declaration), Ok(None));
    assert_eq!(repr_nullable_ptr(&tcx, byte, CItemKind::Declaration), Ok(None));
}

fn option_over(scalar: Option<Layout>, size: Option<SizeSkeleton>) -> (TyCtxt, Ty, Ty) {
    let mut tcx = TyCtxt::new();
    let byte = add(&mut tcx, TyKind::Uint(UintTy::U8));
    let re = tcx.declare();
    let mut d = data(reference(byte), re);
    d.layout = scalar;
    d.size_skeleton = size;
    tcx.describe(re, d);
    let opt = add(&mut tcx, option(re));
    (tcx, opt, re)
}

fn scalar(valid_start: u128, valid_end: u128) -> Option<Layout> {
    Some(Layout::Scalar(Scalar { valid_start, valid_end, unsigned_int_max: MAX }))
}

#[test]
fn the_null_niche_is_zero_or_the_largest_value() {
    let known = Some(SizeSkeleton::Known(8));
    for (start, end, ok) in [(1, MAX, true), (1, 5, true), (0, MAX - 1, true)] {
        let (tcx, opt, _) = option_over(scalar(start, end), known);
        let r = repr_nullable_ptr(&tcx, opt, CItemKind::Declaration);
        assert_eq!(r.map(|n| n.is_some()), Ok(ok));
    }
    for (start, end) in [(0, MAX), (0, 3), (2, MAX)] {
        let (tcx, opt, _) = option_over(scalar(start, end), known);
        assert_eq!(
            repr_nullable_ptr(&tcx, opt, CItemKind::Declaration),
            Err(CheckError::UnhandledRange { start, end })
        );
    }
    let (tcx, opt, _) = option_over(Some(Layout::Other), known);
    assert_eq!(repr_nullable_ptr(&tcx, opt, CItemKind::Declaration), Ok(None));
}

#[test]
fn sizes_and_layouts_must_be_known() {
    let good = scalar(1, MAX);
    let (tcx, opt, re) = option_over(None, Some(SizeSkeleton::Known(8)));
    assert_eq!(
        repr_nullable_ptr(&tcx, opt, CItemKind::Declaration),
        Err(CheckError::UnknownLayout(re))
    );
    let (tcx, opt, re) = option_over(good, None);
    assert_eq!(
        repr_nullable_ptr(&tcx, opt, CItemKind::Declaration),
        Err(CheckError::UnknownSize(re))
    );
    let (tcx, opt, _) = option_over(good, Some(SizeSkeleton::Known(4)));
    assert_eq!(
        repr_nullable_ptr(&tcx, opt, CItemKind::Declaration),
        Err(CheckError::NonnullOptimizationNotApplied(opt))
    );
    let (mut tcx, opt, re) = option_over(good, Some(SizeSkeleton::Known(8)));
    let mut d = data(option(re), opt);
    d.size_skeleton = None;
    tcx.describe(opt, d);
    assert_eq!(
        repr_nullable_ptr(&tcx, opt, CItemKind::Declaration),
        Err(CheckError::UnknownSize(opt))
    );
}

#[test]
fn a_marked_type_without_a_nullable_version_is_an_error() {
    let mut tcx = TyCtxt::new();
    let character = add(&mut tcx, TyKind::Char);
    let mut marked = newtype(character);
    marked.nonnull_optimization_guaranteed = true;
    let marked = add(&mut tcx, TyKind::Adt(marked));
    let opt = add(&mut tcx, option(marked));
    assert_eq!(
        repr_nullable_ptr(&tcx, opt, CItemKind::Declaration),
        Err(CheckError::NoNullableType(marked))
    );
}

#[test]
fn sizes_of_pointers_agree_by_their_tails() {
    let p = |tail| SizeSkeleton::Pointer { non_zero: tail == 0, tail };
    let q = |tail| SizeSkeleton::Pointer { non_zero: false, tail };
    assert!(p(0).same_size(q(0)));
    assert!(!p(0).same_size(q(1)));
    assert!(!p(0).same_size(SizeSkeleton::Known(8)));
    assert!(SizeSkeleton::Known(8).same_size(SizeSkeleton::Known(8)));
    assert!(!SizeSkeleton::Known(8).same_size(SizeSkeleton::Known(4)));
}
