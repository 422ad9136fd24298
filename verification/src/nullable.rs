//! Enums that are represented as a nullable pointer.

use vstd::prelude::*;

use std::collections::HashSet;

use crate::error::CheckError;
use crate::pending::{lemma_pending_insert, pending};
use crate::ty::{
    AdtDef, AdtKind, FieldDef, Layout, Scalar, SizeSkeleton, Ty, TyCtxt, TyKind, TypeAndMut,
    VariantDef,
};

verus! {

/// Whether a foreign item is declared here and defined elsewhere, or defined
/// here for others to call.
#[derive(Clone, Copy, Debug, PartialEq, Eq, Structural)]
pub enum CItemKind {
    Declaration,
    Definition,
}

/// The nullable counterpart of a type.
#[derive(Clone, Copy, Debug, PartialEq, Eq, Structural)]
pub enum NullableTy {
    /// A type of the table.
    Existing(Ty),
    /// The raw pointer to a type.
    RawPtr(TypeAndMut),
}

/// Whether the definition promises the null-pointer optimization.
pub fn nonnull_optimization_guaranteed(def: &AdtDef) -> (r: bool)
    ensures
        r == def.nonnull_optimization_guaranteed,
{
    def.nonnull_optimization_guaranteed
}

/// Whether a field is known to take no space. One whose layout is unknown is
/// not.
pub open spec fn is_zst(field: FieldDef) -> bool {
    field.declared_is_zst == Some(true)
}

/// The first field that is not known to take no space.
pub open spec fn first_non_zst(fields: Seq<FieldDef>) -> Option<FieldDef>
    decreases fields.len(),
{
    if fields.len() == 0 {
        None
    } else if !is_zst(fields[0]) {
        Some(fields[0])
    } else {
        first_non_zst(fields.drop_first())
    }
}

/// `repr(transparent)` structs can have a single non-ZST field, this function
/// returns that field.
pub fn transparent_newtype_field(variant: &VariantDef) -> (r: Option<&FieldDef>)
    ensures
        match r {
            Some(field) => first_non_zst(variant.fields@) == Some(*field),
            None => first_non_zst(variant.fields@) is None,
        },
{
    let fields = &variant.fields;
    let mut i: usize = 0;
    assert(fields@.skip(0) == fields@);
    while i < fields.len()
        invariant
            i <= fields@.len(),
            fields@ == variant.fields@,
            first_non_zst(variant.fields@) == first_non_zst(fields@.skip(i as int)),
        decreases fields.len() - i,
    {
        let zst = match fields[i].declared_is_zst {
            Some(zst) => zst,
            None => false,
        };
        if !zst {
            return Some(&fields[i]);
        }
        assert(fields@.skip(i as int).drop_first() == fields@.skip(i + 1));
        i = i + 1;
    }
    None
}

/// The types of the fields that the variants wrap, one for each variant that
/// has a field of non-zero size.
pub open spec fn wrapped_types(variants: Seq<VariantDef>) -> Seq<Ty>
    decreases variants.len(),
{
    if variants.len() == 0 {
        Seq::empty()
    } else {
        let before = wrapped_types(variants.drop_last());
        match first_non_zst(variants.last().fields@) {
            Some(field) => before.push(field.ty),
            None => before,
        }
    }
}

/// The types of the fields that the variants wrap.
fn collect_wrapped_types(variants: &Vec<VariantDef>) -> (r: Vec<Ty>)
    ensures
        r@ == wrapped_types(variants@),
{
    let mut tys: Vec<Ty> = Vec::new();
    let mut i: usize = 0;
    while i < variants.len()
        invariant
            i <= variants@.len(),
            tys@ == wrapped_types(variants@.take(i as int)),
        decreases variants.len() - i,
    {
        assert(variants@.take(i + 1).drop_last() == variants@.take(i as int));
        match transparent_newtype_field(&variants[i]) {
            Some(field) => {
                tys.push(field.ty);
            },
            None => {},
        }
        i = i + 1;
    }
    assert(variants@.take(variants@.len() as int) == variants@);
    tys
}

/// Whether a type is known to be non-null, on the way down from the types in
/// `path`, which contain it by value.
pub open spec fn nonnull_below(tcx: TyCtxt, ty: Ty, mode: CItemKind, path: Set<Ty>) -> Result<
    bool,
    CheckError,
>
    decreases pending(tcx.len(), path), 0nat, 0nat,
{
    if !tcx.described(ty) {
        Err(CheckError::Undescribed(ty))
    } else if path.contains(ty) {
        Err(CheckError::InfiniteType(ty))
    } else {
        match tcx.kind_of(ty) {
            TyKind::FnPtr(_) => Ok(true),
            TyKind::Ref(_) => Ok(true),
            TyKind::Adt(def) => {
                if def.boxed_ty is Some && mode is Definition {
                    Ok(true)
                } else if def.repr.transparent && def.kind !is Union {
                    if def.nonnull_optimization_guaranteed {
                        Ok(true)
                    } else if def.is_unsafe_cell {
                        Ok(false)
                    } else {
                        proof {
                            lemma_pending_insert(tcx.len(), path, ty);
                        }
                        any_nonnull(
                            tcx,
                            wrapped_types(def.variants@),
                            0,
                            mode,
                            path.insert(ty),
                        )
                    }
                } else {
                    Ok(false)
                }
            },
            _ => Ok(false),
        }
    }
}

/// Whether one of the types from the `i`th on is known to be non-null; the
/// first that is ends the search.
pub open spec fn any_nonnull(
    tcx: TyCtxt,
    tys: Seq<Ty>,
    i: int,
    mode: CItemKind,
    path: Set<Ty>,
) -> Result<bool, CheckError>
    decreases pending(tcx.len(), path), 1nat, tys.len() - i,
{
    if i < 0 || i >= tys.len() {
        Ok(false)
    } else {
        match nonnull_below(tcx, tys[i], mode, path) {
            Ok(false) => any_nonnull(tcx, tys, i + 1, mode, path),
            r => r,
        }
    }
}

/// Is type known to be non-null?
pub open spec fn spec_ty_is_known_nonnull(tcx: TyCtxt, ty: Ty, mode: CItemKind) -> Result<
    bool,
    CheckError,
> {
    nonnull_below(tcx, ty, mode, Set::empty())
}

fn check_nonnull_below(tcx: &TyCtxt, ty: Ty, mode: CItemKind, path: &mut HashSet<Ty>) -> (r: Result<
    bool,
    CheckError,
>)
    ensures
        r == nonnull_below(*tcx, ty, mode, old(path)@),
        r is Ok ==> final(path)@ == old(path)@,
    decreases pending(tcx.len(), old(path)@),
{
    let data = match tcx.data(ty) {
        Ok(data) => data,
        Err(e) => return Err(e),
    };
    if path.contains(&ty) {
        return Err(CheckError::InfiniteType(ty));
    }
    match &data.kind {
        TyKind::FnPtr(_) => Ok(true),
        TyKind::Ref(_) => Ok(true),
        TyKind::Adt(def) => {
            if def.boxed_ty.is_some() && matches!(mode, CItemKind::Definition) {
                return Ok(true);
            }
            if !def.repr.transparent || matches!(def.kind, AdtKind::Union) {
                return Ok(false);
            }
            if nonnull_optimization_guaranteed(def) {
                return Ok(true);
            }
            // `UnsafeCell` has its niche hidden.
            if def.is_unsafe_cell {
                return Ok(false);
            }
            let tys = collect_wrapped_types(&def.variants);
            let ghost met = path@;
            proof {
                lemma_pending_insert(tcx.len(), met, ty);
            }
            path.insert(ty);
            let mut found = false;
            let mut i: usize = 0;
            while i < tys.len() && !found
                invariant
                    i <= tys@.len(),
                    path@ == met.insert(ty),
                    nonnull_below(*tcx, ty, mode, old(path)@) == any_nonnull(
                        *tcx,
                        tys@,
                        0,
                        mode,
                        met.insert(ty),
                    ),
                    pending(tcx.len(), met.insert(ty)) < pending(tcx.len(), old(path)@),
                    any_nonnull(*tcx, tys@, 0, mode, met.insert(ty)) == if found {
                        Ok(true)
                    } else {
                        any_nonnull(*tcx, tys@, i as int, mode, met.insert(ty))
                    },
                decreases tys.len() - i,
            {
                match check_nonnull_below(tcx, tys[i], mode, path) {
                    Ok(nonnull) => {
                        found = nonnull;
                    },
                    Err(e) => return Err(e),
                }
                i = i + 1;
            }
            path.remove(&ty);
            assert(met.insert(ty).remove(ty) =~= met);
            Ok(found)
        },
        _ => Ok(false),
    }
}

/// Is type known to be non-null?
pub fn ty_is_known_nonnull(tcx: &TyCtxt, ty: Ty, mode: CItemKind) -> (r: Result<bool, CheckError>)
    ensures
        r == spec_ty_is_known_nonnull(*tcx, ty, mode),
{
    let mut path: HashSet<Ty> = HashSet::new();
    check_nonnull_below(tcx, ty, mode, &mut path)
}

/// Whether a type of the definition `def` can stand for the one field that it
/// wraps: the definition is transparent, or the type is a single scalar in
/// memory.
pub open spec fn is_wrapper(tcx: TyCtxt, ty: Ty, def: AdtDef) -> bool {
    def.repr.transparent || tcx.data_of(ty).layout matches Some(Layout::Scalar(_))
}

/// The nullable version of a type, on the way down from the types in `path`,
/// which wrap it.
pub open spec fn nullable_below(tcx: TyCtxt, ty: Ty, path: Set<Ty>) -> Result<
    Option<NullableTy>,
    CheckError,
>
    decreases pending(tcx.len(), path),
{
    if !tcx.described(ty) {
        Err(CheckError::Undescribed(ty))
    } else if path.contains(ty) {
        Err(CheckError::InfiniteType(ty))
    } else {
        match tcx.kind_of(ty) {
            TyKind::Adt(def) => {
                let tys = wrapped_types(def.variants@);
                if !is_wrapper(tcx, ty, def) {
                    Ok(None)
                } else if tys.len() != 1 {
                    Err(CheckError::WrongFieldCount(ty))
                } else {
                    proof {
                        lemma_pending_insert(tcx.len(), path, ty);
                    }
                    nullable_below(tcx, tys[0], path.insert(ty))
                }
            },
            TyKind::Int(_) => Ok(Some(NullableTy::Existing(ty))),
            TyKind::Uint(_) => Ok(Some(NullableTy::Existing(ty))),
            TyKind::RawPtr(_) => Ok(Some(NullableTy::Existing(ty))),
            TyKind::Ref(pointer) => Ok(Some(NullableTy::RawPtr(pointer))),
            TyKind::FnPtr(_) => Ok(Some(NullableTy::Existing(ty))),
            _ => Ok(None),
        }
    }
}

/// The nullable version of a non-null scalar (or transparent) type.
pub open spec fn spec_get_nullable_type(tcx: TyCtxt, ty: Ty) -> Result<
    Option<NullableTy>,
    CheckError,
> {
    nullable_below(tcx, ty, Set::empty())
}

/// Given a non-null scalar (or transparent) type `ty`, return the nullable
/// version of that type. If the type passed in was not scalar, returns None.
///
/// A struct, a union or an enum counts as scalar if it is transparent or a single
/// scalar in memory. It is then expected to wrap exactly one field of non-zero
/// size; if it does not, that is an error.
pub fn get_nullable_type(tcx: &TyCtxt, ty: Ty) -> (r: Result<Option<NullableTy>, CheckError>)
    ensures
        r == spec_get_nullable_type(*tcx, ty),
{
    let mut path: HashSet<Ty> = HashSet::new();
    let mut inner: Ty = ty;
    loop
        invariant
            spec_get_nullable_type(*tcx, ty) == nullable_below(*tcx, inner, path@),
        decreases pending(tcx.len(), path@),
    {
        let data = match tcx.data(inner) {
            Ok(data) => data,
            Err(e) => return Err(e),
        };
        if path.contains(&inner) {
            return Err(CheckError::InfiniteType(inner));
        }
        match &data.kind {
            TyKind::Adt(def) => {
                if !def.repr.transparent && !matches!(data.layout, Some(Layout::Scalar(_))) {
                    return Ok(None);
                }
                let tys = collect_wrapped_types(&def.variants);
                if tys.len() != 1 {
                    return Err(CheckError::WrongFieldCount(inner));
                }
                proof {
                    lemma_pending_insert(tcx.len(), path@, inner);
                }
                path.insert(inner);
                inner = tys[0];
            },
            TyKind::Int(_) | TyKind::Uint(_) | TyKind::RawPtr(_) => {
                return Ok(Some(NullableTy::Existing(inner)));
            },
            // As these types are always non-null, the nullable equivalent of
            // Option<T> of these types are their raw pointer counterparts.
            TyKind::Ref(pointer) => {
                return Ok(Some(NullableTy::RawPtr(*pointer)));
            },
            // There is no nullable equivalent for Rust's function pointers -- you
            // must use an Option<fn(..) -> _> to represent it.
            TyKind::FnPtr(_) => {
                return Ok(Some(NullableTy::Existing(inner)));
            },
            _ => {
                return Ok(None);
            },
        }
    }
}

/// The type of the one field of an `Option`-like enum: of its two variants one
/// has no field and the other has one.
pub open spec fn option_like_field(variants: Seq<VariantDef>) -> Option<Ty> {
    if variants.len() == 2 && variants[0].fields@.len() == 0 && variants[1].fields@.len() == 1 {
        Some(variants[1].fields@[0].ty)
    } else if variants.len() == 2 && variants[0].fields@.len() == 1 && variants[1].fields@.len()
        == 0 {
        Some(variants[0].fields@[0].ty)
    } else {
        None
    }
}

fn find_option_like_field(variants: &Vec<VariantDef>) -> (r: Option<Ty>)
    ensures
        r == option_like_field(variants@),
{
    if variants.len() != 2 {
        return None;
    }
    let one = &variants[0].fields;
    let two = &variants[1].fields;
    if one.len() == 0 && two.len() == 1 {
        Some(two[0].ty)
    } else if one.len() == 1 && two.len() == 0 {
        Some(one[0].ty)
    } else {
        None
    }
}

/// Whether the valid values of a scalar leave one free for null: they are all
/// but the largest one, or they begin right after zero.
pub open spec fn has_null_niche(scalar: Scalar) -> bool {
    ||| scalar.valid_start == 0 && scalar.valid_end == scalar.unsigned_int_max - 1
    ||| scalar.valid_start == 1
}

/// The nullable version of a type that must have one.
pub open spec fn nullable_or_fail(tcx: TyCtxt, ty: Ty) -> Result<Option<NullableTy>, CheckError> {
    match spec_get_nullable_type(tcx, ty) {
        Ok(None) => Err(CheckError::NoNullableType(ty)),
        r => r,
    }
}

/// The nullable type that the enum `ty` is represented as, given that its one
/// field is of the non-null type `field_ty`.
pub open spec fn nullable_field(tcx: TyCtxt, ty: Ty, field_ty: Ty) -> Result<
    Option<NullableTy>,
    CheckError,
> {
    match (tcx.data_of(ty).size_skeleton, tcx.data_of(field_ty).size_skeleton) {
        (None, _) => Err(CheckError::UnknownSize(ty)),
        (_, None) => Err(CheckError::UnknownSize(field_ty)),
        (Some(size), Some(field_size)) => if !size.spec_same_size(field_size) {
            Err(CheckError::NonnullOptimizationNotApplied(ty))
        } else {
            match tcx.data_of(field_ty).layout {
                None => Err(CheckError::UnknownLayout(field_ty)),
                Some(Layout::Scalar(scalar)) => if has_null_niche(scalar) {
                    nullable_or_fail(tcx, field_ty)
                } else {
                    Err(
                        CheckError::UnhandledRange {
                            start: scalar.valid_start,
                            end: scalar.valid_end,
                        },
                    )
                },
                Some(Layout::Other) => Ok(None),
            }
        },
    }
}

/// The nullable type that `ty` is represented as, where it is an `Option`-like
/// enum around a type that is known to be non-null.
pub open spec fn spec_repr_nullable_ptr(tcx: TyCtxt, ty: Ty, ckind: CItemKind) -> Result<
    Option<NullableTy>,
    CheckError,
> {
    match tcx.lookup(ty) {
        Err(e) => Err(e),
        Ok(data) => match data.kind {
            TyKind::Adt(def) => match option_like_field(def.variants@) {
                None => Ok(None),
                Some(field_ty) => match spec_ty_is_known_nonnull(tcx, field_ty, ckind) {
                    Err(e) => Err(e),
                    Ok(false) => Ok(None),
                    Ok(true) => nullable_field(tcx, ty, field_ty),
                },
            },
            _ => Ok(None),
        },
    }
}

/// Check if this enum can be safely exported based on the "nullable pointer
/// optimization". If it can, return the type that `ty` can be safely converted
/// to, otherwise return `None`. Currently restricted to function pointers,
/// boxes, references, `core::num::NonZero*`, `core::ptr::NonNull`, and
/// `#[repr(transparent)]` newtypes.
pub fn repr_nullable_ptr(tcx: &TyCtxt, ty: Ty, ckind: CItemKind) -> (r: Result<
    Option<NullableTy>,
    CheckError,
>)
    ensures
        r == spec_repr_nullable_ptr(*tcx, ty, ckind),
{
    let data = match tcx.data(ty) {
        Ok(data) => data,
        Err(e) => return Err(e),
    };
    let def = match &data.kind {
        TyKind::Adt(def) => def,
        _ => return Ok(None),
    };
    let field_ty = match find_option_like_field(&def.variants) {
        Some(field_ty) => field_ty,
        None => return Ok(None),
    };
    match ty_is_known_nonnull(tcx, field_ty, ckind) {
        Ok(true) => {},
        Ok(false) => return Ok(None),
        Err(e) => return Err(e),
    }
    let field_data = match tcx.data(field_ty) {
        Ok(field_data) => field_data,
        Err(e) => return Err(e),
    };

    // At this point, the field's type is known to be nonnull and the parent enum is Option-like.
    // If the computed size for the field and the enum are different, the nonnull optimization isn't
    // being applied (and we've got a problem somewhere).
    let size = match data.size_skeleton {
        Some(size) => size,
        None => return Err(CheckError::UnknownSize(ty)),
    };
    let field_size = match field_data.size_skeleton {
        Some(field_size) => field_size,
        None => return Err(CheckError::UnknownSize(field_ty)),
    };
    if !size.same_size(field_size) {
        return Err(CheckError::NonnullOptimizationNotApplied(ty));
    }
    // Return the nullable type this Option-like enum can be safely represented with.
    match field_data.layout {
        None => Err(CheckError::UnknownLayout(field_ty)),
        Some(Layout::Other) => Ok(None),
        Some(Layout::Scalar(scalar)) => {
            let start = scalar.valid_start;
            let end = scalar.valid_end;
            let max = scalar.unsigned_int_max;
            if start == 1 || (start == 0 && end < max && end == max - 1) {
                match get_nullable_type(tcx, field_ty) {
                    Ok(Some(nullable)) => Ok(Some(nullable)),
                    Ok(None) => Err(CheckError::NoNullableType(field_ty)),
                    Err(e) => Err(e),
                }
            } else {
                Err(CheckError::UnhandledRange { start, end })
            }
        },
    }
}

/// A variant with a single field of non-zero size, as a `repr(transparent)`
/// struct has it, wraps that field, wherever it stands.
pub proof fn lemma_transparent_newtype_field(variant: VariantDef, i: int)
    requires
        0 <= i < variant.fields@.len(),
        !is_zst(variant.fields@[i]),
        forall|j: int|
            0 <= j < variant.fields@.len() && j != i ==> is_zst(#[trigger] variant.fields@[j]),
    ensures
        first_non_zst(variant.fields@) == Some(variant.fields@[i]),
{
    lemma_first_non_zst(variant.fields@, i);
}

/// The first field that is not known to take no space is found behind any
/// number of fields that are.
proof fn lemma_first_non_zst(fields: Seq<FieldDef>, i: int)
    requires
        0 <= i < fields.len(),
        !is_zst(fields[i]),
        forall|j: int| 0 <= j < i ==> is_zst(#[trigger] fields[j]),
    ensures
        first_non_zst(fields) == Some(fields[i]),
    decreases fields.len(),
{
    if i > 0 {
        assert(is_zst(fields[0]));
        lemma_first_non_zst(fields.drop_first(), i - 1);
    }
}

/// An enum is represented as a nullable type only if it is `Option`-like, its
/// field is of a type that is known to be non-null, the two have the same
/// size, and the field leaves a value free for null. The nullable type is that
/// of the field: an integer, a raw pointer or a function pointer.
pub proof fn lemma_repr_nullable_ptr_sound(tcx: TyCtxt, ty: Ty, ckind: CItemKind)
    requires
        spec_repr_nullable_ptr(tcx, ty, ckind) matches Ok(Some(_)),
    ensures
        tcx.kind_of(ty) matches TyKind::Adt(def) && option_like_field(def.variants@) matches Some(
            field_ty,
        ) && {
            &&& spec_ty_is_known_nonnull(tcx, field_ty, ckind) == Ok::<bool, CheckError>(true)
            &&& tcx.data_of(ty).size_skeleton matches Some(size) && tcx.data_of(
                field_ty,
            ).size_skeleton matches Some(field_size) && size.spec_same_size(field_size)
            &&& tcx.data_of(field_ty).layout matches Some(Layout::Scalar(scalar))
                && has_null_niche(scalar)
            &&& spec_repr_nullable_ptr(tcx, ty, ckind) == spec_get_nullable_type(tcx, field_ty)
        },
        is_nullable_kind(tcx, spec_repr_nullable_ptr(tcx, ty, ckind)->Ok_0->0),
{
    if let TyKind::Adt(def) = tcx.kind_of(ty) {
        if let Some(field_ty) = option_like_field(def.variants@) {
            lemma_nullable_kind(tcx, field_ty, Set::empty());
        }
    }
}

/// Whether a nullable type is an integer, a raw pointer or a function pointer.
pub open spec fn is_nullable_kind(tcx: TyCtxt, nullable: NullableTy) -> bool {
    match nullable {
        NullableTy::Existing(t) => tcx.described(t) && {
            ||| tcx.kind_of(t) is Int
            ||| tcx.kind_of(t) is Uint
            ||| tcx.kind_of(t) is RawPtr
            ||| tcx.kind_of(t) is FnPtr
        },
        NullableTy::RawPtr(_) => true,
    }
}

proof fn lemma_nullable_kind(tcx: TyCtxt, ty: Ty, path: Set<Ty>)
    ensures
        nullable_below(tcx, ty, path) matches Ok(Some(nullable)) ==> is_nullable_kind(
            tcx,
            nullable,
        ),
    decreases pending(tcx.len(), path),
{
    if tcx.described(ty) && !path.contains(ty) {
        if let TyKind::Adt(def) = tcx.kind_of(ty) {
            let tys = wrapped_types(def.variants@);
            lemma_pending_insert(tcx.len(), path, ty);
            lemma_nullable_kind(tcx, tys[0], path.insert(ty));
        }
    }
}

/// Whether the size of the type `a`, where it is known, is also that of the type
/// `b`.
pub open spec fn size_carries_over(tcx: TyCtxt, a: Ty, b: Ty) -> bool {
    tcx.data_of(a).size_skeleton matches Some(size) ==> tcx.data_of(b).size_skeleton matches Some(
        other,
    ) && size.spec_same_size(other)
}

/// Whether the type `ty` wraps the type `inner`, which has a nullable version.
pub open spec fn wraps_nullable(tcx: TyCtxt, ty: Ty, inner: Ty) -> bool {
    &&& tcx.described(ty)
    &&& tcx.kind_of(ty) matches TyKind::Adt(def) && is_wrapper(tcx, ty, def) && wrapped_types(
        def.variants@,
    ) == seq![inner]
    &&& spec_get_nullable_type(tcx, inner) matches Ok(Some(_))
}

/// Whether `reference` is a reference, and `raw` a raw pointer, to the same type.
pub open spec fn point_alike(tcx: TyCtxt, reference: Ty, raw: Ty) -> bool {
    &&& tcx.described(reference)
    &&& tcx.described(raw)
    &&& tcx.kind_of(reference) matches TyKind::Ref(a) && tcx.kind_of(raw) matches TyKind::RawPtr(b)
        && a.ty == b.ty
}

/// Whether the sizes in the table agree with each other: a wrapper has the size
/// of what it wraps, and a reference that of a raw pointer to the same type.
pub open spec fn sizes_agree(tcx: TyCtxt) -> bool {
    &&& forall|ty: Ty, inner: Ty| #[trigger]
        wraps_nullable(tcx, ty, inner) ==> size_carries_over(tcx, ty, inner)
    &&& forall|reference: Ty, raw: Ty| #[trigger]
        point_alike(tcx, reference, raw) ==> size_carries_over(tcx, reference, raw)
}

/// Whether a nullable type has a size. Of a raw pointer, this says that the
/// reference it takes the place of has the size, and so has the pointer itself
/// where it is described.
pub open spec fn nullable_has_size(tcx: TyCtxt, nullable: NullableTy, size: SizeSkeleton) -> bool {
    match nullable {
        NullableTy::Existing(t) => has_size(tcx, t, size),
        NullableTy::RawPtr(pointer) => {
            &&& exists|reference: Ty| #[trigger]
                tcx.described(reference) && tcx.kind_of(reference) == TyKind::Ref(pointer)
                    && has_size(tcx, reference, size)
            &&& forall|raw: Ty| #[trigger]
                tcx.described(raw) && tcx.kind_of(raw) == TyKind::RawPtr(pointer) ==> has_size(
                    tcx,
                    raw,
                    size,
                )
        },
    }
}

/// Whether a type has a size.
pub open spec fn has_size(tcx: TyCtxt, ty: Ty, size: SizeSkeleton) -> bool {
    tcx.data_of(ty).size_skeleton matches Some(own) && size.spec_same_size(own)
}

/// The type that an enum can be safely converted to has the size of the enum.
pub proof fn lemma_repr_nullable_ptr_size(tcx: TyCtxt, ty: Ty, ckind: CItemKind)
    requires
        sizes_agree(tcx),
        spec_repr_nullable_ptr(tcx, ty, ckind) matches Ok(Some(_)),
    ensures
        tcx.data_of(ty).size_skeleton matches Some(size) && nullable_has_size(
            tcx,
            spec_repr_nullable_ptr(tcx, ty, ckind)->Ok_0->0,
            size,
        ),
{
    lemma_repr_nullable_ptr_sound(tcx, ty, ckind);
    if let TyKind::Adt(def) = tcx.kind_of(ty) {
        if let Some(field_ty) = option_like_field(def.variants@) {
            let size = tcx.data_of(ty).size_skeleton->0;
            lemma_nullable_size(tcx, field_ty, Set::empty(), size);
        }
    }
}

/// The nullable version of a type has the size of the type.
proof fn lemma_nullable_size(tcx: TyCtxt, ty: Ty, path: Set<Ty>, size: SizeSkeleton)
    requires
        sizes_agree(tcx),
        nullable_below(tcx, ty, path) matches Ok(Some(_)),
        has_size(tcx, ty, size),
    ensures
        nullable_has_size(tcx, nullable_below(tcx, ty, path)->Ok_0->0, size),
    decreases pending(tcx.len(), path),
{
    match tcx.kind_of(ty) {
        TyKind::Adt(def) => {
            let tys = wrapped_types(def.variants@);
            let inner = tys[0];
            lemma_pending_insert(tcx.len(), path, ty);
            lemma_nullable_below(tcx, inner, path.insert(ty), Set::empty());
            assert(tys =~= seq![inner]);
            assert(wraps_nullable(tcx, ty, inner));
            lemma_nullable_size(tcx, inner, path.insert(ty), size);
        },
        TyKind::Ref(pointer) => {
            assert forall|raw: Ty| #[trigger]
                tcx.described(raw) && tcx.kind_of(raw) == TyKind::RawPtr(pointer) implies has_size(
                tcx,
                raw,
                size,
            ) by {
                assert(point_alike(tcx, ty, raw));
            }
        },
        _ => {},
    }
}

/// A type that is neither a scalar nor a wrapper has no nullable version.
pub proof fn lemma_only_scalars_nullable(tcx: TyCtxt, ty: Ty)
    requires
        tcx.described(ty),
        tcx.kind_of(ty) matches TyKind::Adt(def) ==> !is_wrapper(tcx, ty, def),
    ensures
        spec_get_nullable_type(tcx, ty) matches Ok(nullable) && (nullable is Some <==> {
            ||| tcx.kind_of(ty) is Int
            ||| tcx.kind_of(ty) is Uint
            ||| tcx.kind_of(ty) is RawPtr
            ||| tcx.kind_of(ty) is Ref
            ||| tcx.kind_of(ty) is FnPtr
        }),
{
}

/// A type has the same nullable version whichever wrappers it is in.
pub proof fn lemma_nullable_below(tcx: TyCtxt, ty: Ty, path: Set<Ty>, shorter: Set<Ty>)
    requires
        shorter.subset_of(path),
        nullable_below(tcx, ty, path) is Ok,
    ensures
        nullable_below(tcx, ty, shorter) == nullable_below(tcx, ty, path),
    decreases pending(tcx.len(), path),
{
    if let TyKind::Adt(def) = tcx.kind_of(ty) {
        if is_wrapper(tcx, ty, def) {
            let tys = wrapped_types(def.variants@);
            lemma_pending_insert(tcx.len(), path, ty);
            lemma_nullable_below(tcx, tys[0], path.insert(ty), shorter.insert(ty));
        }
    }
}

/// The nullable version of a wrapper is that of the type it wraps.
pub proof fn lemma_wrapper_nullable(tcx: TyCtxt, ty: Ty, def: AdtDef, inner: Ty)
    requires
        tcx.described(ty),
        tcx.kind_of(ty) == TyKind::Adt(def),
        is_wrapper(tcx, ty, def),
        wrapped_types(def.variants@) == seq![inner],
        spec_get_nullable_type(tcx, ty) is Ok,
    ensures
        spec_get_nullable_type(tcx, ty) == spec_get_nullable_type(tcx, inner),
{
    lemma_nullable_below(tcx, inner, Set::empty().insert(ty), Set::empty());
}

/// Whether a type is known to be non-null does not depend on the wrappers it is
/// in.
pub proof fn lemma_nonnull_below(
    tcx: TyCtxt,
    ty: Ty,
    mode: CItemKind,
    path: Set<Ty>,
    shorter: Set<Ty>,
)
    requires
        shorter.subset_of(path),
        nonnull_below(tcx, ty, mode, path) is Ok,
    ensures
        nonnull_below(tcx, ty, mode, shorter) == nonnull_below(tcx, ty, mode, path),
    decreases pending(tcx.len(), path), 0nat, 0nat,
{
    if let TyKind::Adt(def) = tcx.kind_of(ty) {
        let tys = wrapped_types(def.variants@);
        lemma_pending_insert(tcx.len(), path, ty);
        if any_nonnull(tcx, tys, 0, mode, path.insert(ty)) is Ok {
            lemma_any_nonnull(tcx, tys, 0, mode, path.insert(ty), shorter.insert(ty));
        }
    }
}

proof fn lemma_any_nonnull(
    tcx: TyCtxt,
    tys: Seq<Ty>,
    i: int,
    mode: CItemKind,
    path: Set<Ty>,
    shorter: Set<Ty>,
)
    requires
        shorter.subset_of(path),
        any_nonnull(tcx, tys, i, mode, path) is Ok,
    ensures
        any_nonnull(tcx, tys, i, mode, shorter) == any_nonnull(tcx, tys, i, mode, path),
    decreases pending(tcx.len(), path), 1nat, tys.len() - i,
{
    if 0 <= i < tys.len() {
        lemma_nonnull_below(tcx, tys[i], mode, path, shorter);
        if nonnull_below(tcx, tys[i], mode, path) == Ok::<bool, CheckError>(false) {
            lemma_any_nonnull(tcx, tys, i + 1, mode, path, shorter);
        }
    }
}

/// A transparent wrapper, other than `UnsafeCell`, is known to be non-null
/// exactly if it is marked so or the type it wraps is known to be non-null.
pub proof fn lemma_wrapper_nonnull(
    tcx: TyCtxt,
    ty: Ty,
    mode: CItemKind,
    def: AdtDef,
    inner: Ty,
)
    requires
        tcx.described(ty),
        tcx.kind_of(ty) == TyKind::Adt(def),
        def.boxed_ty is None,
        def.repr.transparent,
        def.kind !is Union,
        !def.is_unsafe_cell,
        wrapped_types(def.variants@) == seq![inner],
        spec_ty_is_known_nonnull(tcx, ty, mode) is Ok,
    ensures
        def.nonnull_optimization_guaranteed ==> spec_ty_is_known_nonnull(tcx, ty, mode) == Ok::<
            bool,
            CheckError,
        >(true),
        !def.nonnull_optimization_guaranteed ==> spec_ty_is_known_nonnull(tcx, ty, mode)
            == spec_ty_is_known_nonnull(tcx, inner, mode),
{
    if !def.nonnull_optimization_guaranteed {
        let path = Set::empty().insert(ty);
        let tys = seq![inner];
        assert(any_nonnull(tcx, tys, 1, mode, path) == Ok::<bool, CheckError>(false));
        assert(any_nonnull(tcx, tys, 0, mode, path) == nonnull_below(tcx, inner, mode, path));
        lemma_nonnull_below(tcx, inner, mode, path, Set::empty());
    }
}

} // verus!
