//! Which types are never null, and which enums are represented as a nullable
//! pointer, in terms of how the types are described.

use vstd::prelude::*;

use crate::error::CheckError;
use crate::nullable::{
    any_nonnull, first_non_zst, is_zst, lemma_nonnull_below, nonnull_below, nullable_below,
    option_like_field, spec_get_nullable_type, spec_repr_nullable_ptr, spec_ty_is_known_nonnull,
    wrapped_types, CItemKind, NullableTy,
};
use crate::pending::{lemma_pending_insert, pending};
use crate::ty::{
    AdtDef, AdtKind, FieldDef, Layout, SizeSkeleton, Ty, TyCtxt, TyKind, VariantDef,
};

verus! {

/// Whether the `i`th field of a variant is the first that is not known to take no
/// space.
pub open spec fn wraps_at(variant: VariantDef, i: int) -> bool {
    &&& 0 <= i < variant.fields@.len()
    &&& variant.fields@[i].declared_is_zst != Some(true)
    &&& forall|j: int|
        0 <= j < i ==> (#[trigger] variant.fields@[j]).declared_is_zst == Some(true)
}

/// Whether all fields of a variant are known to take no space.
pub open spec fn wraps_nothing(variant: VariantDef) -> bool {
    forall|j: int|
        0 <= j < variant.fields@.len() ==> (#[trigger] variant.fields@[j]).declared_is_zst == Some(
            true,
        )
}

/// Of a variant the first field of non-zero size is taken.
pub proof fn lemma_wraps_at(variant: VariantDef, i: int)
    requires
        wraps_at(variant, i),
    ensures
        first_non_zst(variant.fields@) == Some(variant.fields@[i]),
{
    lemma_first_at(variant.fields@, i);
}

proof fn lemma_first_at(fields: Seq<FieldDef>, i: int)
    requires
        0 <= i < fields.len(),
        fields[i].declared_is_zst != Some(true),
        forall|j: int| 0 <= j < i ==> (#[trigger] fields[j]).declared_is_zst == Some(true),
    ensures
        first_non_zst(fields) == Some(fields[i]),
    decreases fields.len(),
{
    if i > 0 {
        assert(is_zst(fields[0]));
        lemma_first_at(fields.drop_first(), i - 1);
    }
}

/// Of a variant without a field of non-zero size none is taken.
pub proof fn lemma_wraps_nothing(variant: VariantDef)
    requires
        wraps_nothing(variant),
    ensures
        first_non_zst(variant.fields@) is None,
{
    lemma_none_first(variant.fields@);
}

proof fn lemma_none_first(fields: Seq<FieldDef>)
    requires
        forall|j: int|
            0 <= j < fields.len() ==> (#[trigger] fields[j]).declared_is_zst == Some(true),
    ensures
        first_non_zst(fields) is None,
    decreases fields.len(),
{
    if fields.len() > 0 {
        assert(is_zst(fields[0]));
        lemma_none_first(fields.drop_first());
    }
}

/// Whether a variant wraps a field of the type `inner`.
pub open spec fn wraps(variant: VariantDef, inner: Ty) -> bool {
    exists|i: int| #[trigger] wraps_at(variant, i) && variant.fields@[i].ty == inner
}

/// A variant wraps a field exactly if one of its fields is taken.
proof fn lemma_wraps(variant: VariantDef)
    ensures
        match first_non_zst(variant.fields@) {
            Some(field) => forall|inner: Ty| wraps(variant, inner) <==> inner == field.ty,
            None => wraps_nothing(variant) && forall|inner: Ty| !wraps(variant, inner),
        },
        first_non_zst(variant.fields@) is Some ==> !wraps_nothing(variant),
{
    let fields = variant.fields@;
    if wraps_nothing(variant) {
        lemma_wraps_nothing(variant);
        assert forall|inner: Ty| !wraps(variant, inner) by {
            if wraps(variant, inner) {
                let i = choose|i: int| #[trigger]
                    wraps_at(variant, i) && variant.fields@[i].ty == inner;
                assert(fields[i].declared_is_zst == Some(true));
            }
        }
    } else {
        let k = choose|k: int|
            0 <= k < fields.len() && (#[trigger] fields[k]).declared_is_zst != Some(true);
        let i = lemma_least(fields, k);
        assert(wraps_at(variant, i));
        lemma_wraps_at(variant, i);
        assert forall|inner: Ty| wraps(variant, inner) <==> inner == fields[i].ty by {
            if wraps(variant, inner) {
                let j = choose|j: int| #[trigger]
                    wraps_at(variant, j) && variant.fields@[j].ty == inner;
                lemma_wraps_at(variant, j);
            }
        }
    }
}

/// The first field of non-zero size, at `k` or before it.
proof fn lemma_least(fields: Seq<FieldDef>, k: int) -> (i: int)
    requires
        0 <= k < fields.len(),
        fields[k].declared_is_zst != Some(true),
    ensures
        0 <= i <= k,
        fields[i].declared_is_zst != Some(true),
        forall|j: int| 0 <= j < i ==> (#[trigger] fields[j]).declared_is_zst == Some(true),
    decreases k,
{
    if forall|j: int| 0 <= j < k ==> (#[trigger] fields[j]).declared_is_zst == Some(true) {
        k
    } else {
        let j = choose|j: int|
            0 <= j < k && (#[trigger] fields[j]).declared_is_zst != Some(true);
        lemma_least(fields, j)
    }
}

/// The types that some variants wrap are those that one of them wraps.
proof fn lemma_wrapped_types_contains(variants: Seq<VariantDef>, inner: Ty)
    ensures
        wrapped_types(variants).contains(inner) <==> exists|k: int|
            0 <= k < variants.len() && wraps(#[trigger] variants[k], inner),
    decreases variants.len(),
{
    if variants.len() > 0 {
        let fewer = variants.drop_last();
        let last = variants.last();
        let before = wrapped_types(fewer);
        lemma_wrapped_types_contains(fewer, inner);
        lemma_wraps(last);
        if wrapped_types(variants).contains(inner) {
            let m = choose|m: int|
                0 <= m < wrapped_types(variants).len() && wrapped_types(variants)[m] == inner;
            if m < before.len() {
                assert(before[m] == inner);
                let k = choose|k: int| 0 <= k < fewer.len() && wraps(#[trigger] fewer[k], inner);
                assert(wraps(variants[k], inner));
            } else {
                assert(wraps(variants[variants.len() - 1], inner));
            }
        }
        if exists|k: int| 0 <= k < variants.len() && wraps(#[trigger] variants[k], inner) {
            let k = choose|k: int| 0 <= k < variants.len() && wraps(#[trigger] variants[k], inner);
            if k < fewer.len() {
                assert(wraps(fewer[k], inner));
                let m = choose|m: int| 0 <= m < before.len() && before[m] == inner;
                assert(wrapped_types(variants)[m] == inner);
            } else {
                assert(wrapped_types(variants)[before.len() as int] == inner);
            }
        }
    }
}

/// Whether no variant but the `k`th wraps a field.
pub open spec fn only_wraps(variants: Seq<VariantDef>, k: int) -> bool {
    forall|v: int| 0 <= v < variants.len() && v != k ==> wraps_nothing(#[trigger] variants[v])
}

proof fn lemma_wrapped_types_none(variants: Seq<VariantDef>)
    requires
        forall|v: int| 0 <= v < variants.len() ==> wraps_nothing(#[trigger] variants[v]),
    ensures
        wrapped_types(variants) == Seq::<Ty>::empty(),
    decreases variants.len(),
{
    if variants.len() > 0 {
        let fewer = variants.drop_last();
        assert(forall|v: int| 0 <= v < fewer.len() ==> #[trigger] fewer[v] == variants[v]);
        lemma_wrapped_types_none(fewer);
        assert(wraps_nothing(variants[variants.len() - 1]));
        lemma_wraps_nothing(variants.last());
    }
}

proof fn lemma_wrapped_types_one(variants: Seq<VariantDef>, k: int, inner: Ty)
    requires
        0 <= k < variants.len(),
        wraps(variants[k], inner),
        only_wraps(variants, k),
    ensures
        wrapped_types(variants) == seq![inner],
    decreases variants.len(),
{
    let fewer = variants.drop_last();
    let last = variants.last();
    assert(forall|v: int| 0 <= v < fewer.len() ==> #[trigger] fewer[v] == variants[v]);
    lemma_wraps(last);
    if k == variants.len() - 1 {
        assert forall|v: int| 0 <= v < fewer.len() implies wraps_nothing(#[trigger] fewer[v]) by {
            assert(wraps_nothing(variants[v]));
        }
        lemma_wrapped_types_none(fewer);
        assert(wrapped_types(variants) =~= seq![inner]);
    } else {
        assert forall|v: int| 0 <= v < fewer.len() && v != k implies wraps_nothing(
            #[trigger] fewer[v],
        ) by {
            assert(wraps_nothing(variants[v]));
        }
        lemma_wrapped_types_one(fewer, k, inner);
        assert(wraps_nothing(variants[variants.len() - 1]));
    }
}

proof fn lemma_wrapped_types_some(variants: Seq<VariantDef>, k: int)
    requires
        0 <= k < variants.len(),
        !wraps_nothing(variants[k]),
    ensures
        wrapped_types(variants).len() >= 1,
    decreases variants.len(),
{
    let fewer = variants.drop_last();
    lemma_wraps(variants.last());
    if k < fewer.len() {
        assert(fewer[k] == variants[k]);
        lemma_wrapped_types_some(fewer, k);
    }
}

proof fn lemma_wrapped_types_two(variants: Seq<VariantDef>, k: int, m: int)
    requires
        0 <= k < m < variants.len(),
        !wraps_nothing(variants[k]),
        !wraps_nothing(variants[m]),
    ensures
        wrapped_types(variants).len() >= 2,
    decreases variants.len(),
{
    let fewer = variants.drop_last();
    lemma_wraps(variants.last());
    assert(fewer[k] == variants[k]);
    if m < fewer.len() {
        assert(fewer[m] == variants[m]);
        lemma_wrapped_types_two(fewer, k, m);
    } else {
        lemma_wrapped_types_some(fewer, k);
    }
}

/// Whether a definition is taken as any other: it is not a `Box` in a definition.
pub open spec fn no_special_box(mode: CItemKind, def: AdtDef) -> bool {
    def.boxed_ty is Some ==> mode == CItemKind::Declaration
}

/// References and function pointers are never null, in either mode. Types that are
/// neither, nor definitions, may be.
pub proof fn lemma_nonnull_kinds(tcx: TyCtxt, ty: Ty, mode: CItemKind)
    ensures
        ({
            let r = spec_ty_is_known_nonnull(tcx, ty, mode);
            let kind = tcx.kind_of(ty);
            &&& !tcx.described(ty) ==> r == Err::<bool, CheckError>(CheckError::Undescribed(ty))
            &&& tcx.described(ty) && (kind is Ref || kind is FnPtr) ==> r == Ok::<bool, CheckError>(
                true,
            )
            &&& tcx.described(ty) && !(kind is Ref || kind is FnPtr || kind is Adt) ==> r == Ok::<
                bool,
                CheckError,
            >(false)
        }),
{
}

/// A `Box` is never null in a definition. Any other definition may be null if it
/// is a union or is not transparent. A transparent struct or enum is never null if
/// it is marked so, and may be null if it is `UnsafeCell`.
pub proof fn lemma_nonnull_definitions(tcx: TyCtxt, ty: Ty, mode: CItemKind, def: AdtDef)
    requires
        tcx.described(ty),
        tcx.kind_of(ty) == TyKind::Adt(def),
    ensures
        ({
            let r = spec_ty_is_known_nonnull(tcx, ty, mode);
            let wrapper = def.repr.transparent && def.kind != AdtKind::Union;
            let marked = def.nonnull_optimization_guaranteed;
            &&& !no_special_box(mode, def) ==> r == Ok::<bool, CheckError>(true)
            &&& no_special_box(mode, def) && !wrapper ==> r == Ok::<bool, CheckError>(false)
            &&& wrapper && marked ==> r == Ok::<bool, CheckError>(true)
            &&& no_special_box(mode, def) && wrapper && !marked && def.is_unsafe_cell ==> r
                == Ok::<bool, CheckError>(false)
        }),
{
}

/// Whether a definition is null exactly if what it wraps is.
pub open spec fn null_as_wrapped(mode: CItemKind, def: AdtDef) -> bool {
    &&& no_special_box(mode, def)
    &&& def.repr.transparent
    &&& def.kind != AdtKind::Union
    &&& !def.nonnull_optimization_guaranteed
    &&& !def.is_unsafe_cell
}

/// Any other transparent struct or enum is never null exactly if one of the types
/// that its variants wrap is never null.
pub proof fn lemma_nonnull_wrappers(tcx: TyCtxt, ty: Ty, mode: CItemKind, def: AdtDef)
    requires
        tcx.described(ty),
        tcx.kind_of(ty) == TyKind::Adt(def),
        null_as_wrapped(mode, def),
    ensures
        ({
            let r = spec_ty_is_known_nonnull(tcx, ty, mode);
            &&& r == Ok::<bool, CheckError>(true) ==> exists|k: int, inner: Ty|
                0 <= k < def.variants@.len() && #[trigger] wraps(def.variants@[k], inner)
                    && spec_ty_is_known_nonnull(tcx, inner, mode) == Ok::<bool, CheckError>(true)
            &&& r == Ok::<bool, CheckError>(false) ==> forall|k: int, inner: Ty|
                0 <= k < def.variants@.len() && #[trigger] wraps(def.variants@[k], inner)
                    ==> spec_ty_is_known_nonnull(tcx, inner, mode) == Ok::<bool, CheckError>(false)
        }),
{
    let tys = wrapped_types(def.variants@);
    let path = Set::<Ty>::empty().insert(ty);
    let r = any_nonnull(tcx, tys, 0, mode, path);
    lemma_pending_insert(tcx.len(), Set::<Ty>::empty(), ty);
    assert(spec_ty_is_known_nonnull(tcx, ty, mode) == r);
    if r is Ok {
        lemma_any_nonnull_says(tcx, tys, 0, mode, path);
        if r->Ok_0 {
            let m = choose|m: int|
                0 <= m < tys.len() && nonnull_below(tcx, #[trigger] tys[m], mode, path) == Ok::<
                    bool,
                    CheckError,
                >(true);
            let inner = tys[m];
            lemma_nonnull_below(tcx, inner, mode, path, Set::empty());
            lemma_wrapped_types_contains(def.variants@, inner);
            let k = choose|k: int|
                0 <= k < def.variants@.len() && wraps(#[trigger] def.variants@[k], inner);
            assert(wraps(def.variants@[k], inner));
        } else {
            assert forall|k: int, inner: Ty|
                0 <= k < def.variants@.len() && #[trigger] wraps(
                    def.variants@[k],
                    inner,
                ) implies spec_ty_is_known_nonnull(tcx, inner, mode) == Ok::<bool, CheckError>(
                false,
            ) by {
                lemma_wrapped_types_contains(def.variants@, inner);
                let m = choose|m: int| 0 <= m < tys.len() && tys[m] == inner;
                assert(nonnull_below(tcx, tys[m], mode, path) == Ok::<bool, CheckError>(false));
                lemma_nonnull_below(tcx, inner, mode, path, Set::empty());
            }
        }
    }
}

proof fn lemma_any_nonnull_says(
    tcx: TyCtxt,
    tys: Seq<Ty>,
    i: int,
    mode: CItemKind,
    path: Set<Ty>,
)
    requires
        0 <= i,
        any_nonnull(tcx, tys, i, mode, path) is Ok,
    ensures
        any_nonnull(tcx, tys, i, mode, path)->Ok_0 ==> exists|m: int|
            i <= m < tys.len() && nonnull_below(tcx, #[trigger] tys[m], mode, path) == Ok::<
                bool,
                CheckError,
            >(true),
        !any_nonnull(tcx, tys, i, mode, path)->Ok_0 ==> forall|m: int|
            i <= m < tys.len() ==> nonnull_below(tcx, #[trigger] tys[m], mode, path) == Ok::<
                bool,
                CheckError,
            >(false),
    decreases tys.len() - i,
{
    if i < tys.len() {
        if nonnull_below(tcx, tys[i], mode, path) == Ok::<bool, CheckError>(false) {
            lemma_any_nonnull_says(tcx, tys, i + 1, mode, path);
        }
    }
}

/// Whether the types that a definition wraps are described, and `rank` falls from
/// a definition to them: then no type wraps itself, however often.
pub open spec fn well_founded(tcx: TyCtxt, rank: spec_fn(Ty) -> nat) -> bool {
    forall|ty: Ty, inner: Ty| #[trigger]
        wrapped_in(tcx, ty, inner) ==> tcx.described(inner) && rank(inner) < rank(ty)
}

/// Whether a variant of the type `ty` wraps a field of the type `inner`.
pub open spec fn wrapped_in(tcx: TyCtxt, ty: Ty, inner: Ty) -> bool {
    &&& tcx.described(ty)
    &&& tcx.kind_of(ty) matches TyKind::Adt(def) && exists|k: int|
        0 <= k < def.variants@.len() && wraps(#[trigger] def.variants@[k], inner)
}

/// Where no type wraps itself, it is always known whether a described type is known
/// to be non-null.
pub proof fn lemma_nonnull_answered(
    tcx: TyCtxt,
    ty: Ty,
    mode: CItemKind,
    rank: spec_fn(Ty) -> nat,
)
    requires
        tcx.described(ty),
        well_founded(tcx, rank),
    ensures
        spec_ty_is_known_nonnull(tcx, ty, mode) is Ok,
{
    lemma_nonnull_below_answered(tcx, ty, mode, Set::empty(), rank);
}

proof fn lemma_nonnull_below_answered(
    tcx: TyCtxt,
    ty: Ty,
    mode: CItemKind,
    path: Set<Ty>,
    rank: spec_fn(Ty) -> nat,
)
    requires
        tcx.described(ty),
        well_founded(tcx, rank),
        forall|above: Ty| #[trigger] path.contains(above) ==> rank(ty) < rank(above),
    ensures
        nonnull_below(tcx, ty, mode, path) is Ok,
    decreases rank(ty), 1nat, 0nat,
{
    if let TyKind::Adt(def) = tcx.kind_of(ty) {
        let tys = wrapped_types(def.variants@);
        let longer = path.insert(ty);
        assert forall|m: int| 0 <= m < tys.len() implies wrapped_in(
            tcx,
            ty,
            #[trigger] tys[m],
        ) by {
            lemma_wrapped_types_contains(def.variants@, tys[m]);
        }
        lemma_pending_insert(tcx.len(), path, ty);
        lemma_any_nonnull_answered(tcx, ty, tys, 0, mode, longer, rank);
    }
}

proof fn lemma_any_nonnull_answered(
    tcx: TyCtxt,
    ty: Ty,
    tys: Seq<Ty>,
    i: int,
    mode: CItemKind,
    path: Set<Ty>,
    rank: spec_fn(Ty) -> nat,
)
    requires
        0 <= i <= tys.len(),
        well_founded(tcx, rank),
        forall|m: int| 0 <= m < tys.len() ==> wrapped_in(tcx, ty, #[trigger] tys[m]),
        forall|above: Ty| #[trigger] path.contains(above) ==> rank(ty) <= rank(above),
    ensures
        any_nonnull(tcx, tys, i, mode, path) is Ok,
    decreases rank(ty), 0nat, tys.len() - i,
{
    if i < tys.len() {
        assert(wrapped_in(tcx, ty, tys[i]));
        lemma_nonnull_below_answered(tcx, tys[i], mode, path, rank);
        lemma_any_nonnull_answered(tcx, ty, tys, i + 1, mode, path, rank);
    }
}

/// The nullable version of an integer, a raw pointer or a function pointer is that
/// type itself; that of a reference is the raw pointer to the same type, writable
/// exactly if the reference is. No other type but a definition has one.
pub proof fn lemma_nullable_kinds(tcx: TyCtxt, ty: Ty)
    ensures
        ({
            let r = spec_get_nullable_type(tcx, ty);
            let kind = tcx.kind_of(ty);
            let own = kind is Int || kind is Uint || kind is RawPtr || kind is FnPtr;
            &&& !tcx.described(ty) ==> r == Err::<Option<NullableTy>, CheckError>(
                CheckError::Undescribed(ty),
            )
            &&& tcx.described(ty) && own ==> r == Ok::<Option<NullableTy>, CheckError>(
                Some(NullableTy::Existing(ty)),
            )
            &&& tcx.described(ty) ==> (kind matches TyKind::Ref(pointer) ==> r == Ok::<
                Option<NullableTy>,
                CheckError,
            >(Some(NullableTy::RawPtr(pointer))))
            &&& tcx.described(ty) && !own && !(kind is Ref) && !(kind is Adt) ==> r == Ok::<
                Option<NullableTy>,
                CheckError,
            >(None)
        }),
{
}

/// Whether a definition stands for what it wraps: it is transparent, or a single
/// scalar in memory.
pub open spec fn stands_for_wrapped(tcx: TyCtxt, ty: Ty, def: AdtDef) -> bool {
    def.repr.transparent || tcx.data_of(ty).layout matches Some(Layout::Scalar(_))
}

/// A definition that does not stand for what it wraps has no nullable version. One
/// that does wraps a field in exactly one of its variants, or that is an error; and
/// it has the nullable version of what it wraps.
pub proof fn lemma_nullable_definitions(tcx: TyCtxt, ty: Ty, def: AdtDef)
    requires
        tcx.described(ty),
        tcx.kind_of(ty) == TyKind::Adt(def),
    ensures
        ({
            let r = spec_get_nullable_type(tcx, ty);
            let variants = def.variants@;
            let wrong = Err::<Option<NullableTy>, CheckError>(CheckError::WrongFieldCount(ty));
            &&& !stands_for_wrapped(tcx, ty, def) ==> r == Ok::<Option<NullableTy>, CheckError>(
                None,
            )
            &&& stands_for_wrapped(tcx, ty, def) ==> {
                &&& (forall|v: int|
                    0 <= v < variants.len() ==> wraps_nothing(#[trigger] variants[v])) ==> r
                    == wrong
                &&& forall|k: int, m: int|
                    0 <= k < m < variants.len() && !wraps_nothing(#[trigger] variants[k])
                        && !wraps_nothing(#[trigger] variants[m]) ==> r == wrong
                &&& forall|k: int, inner: Ty|
                    0 <= k < variants.len() && #[trigger] wraps(variants[k], inner) && only_wraps(
                        variants,
                        k,
                    ) && (r is Ok || spec_get_nullable_type(tcx, inner) is Ok) ==> r
                        == spec_get_nullable_type(tcx, inner)
            }
        }),
{
    let variants = def.variants@;
    let r = spec_get_nullable_type(tcx, ty);
    if stands_for_wrapped(tcx, ty, def) {
        if forall|v: int| 0 <= v < variants.len() ==> wraps_nothing(#[trigger] variants[v]) {
            lemma_wrapped_types_none(variants);
        }
        assert forall|k: int, m: int|
            0 <= k < m < variants.len() && !wraps_nothing(#[trigger] variants[k])
                && !wraps_nothing(#[trigger] variants[m]) implies r == Err::<
            Option<NullableTy>,
            CheckError,
        >(CheckError::WrongFieldCount(ty)) by {
            lemma_wrapped_types_two(variants, k, m);
        }
        assert forall|k: int, inner: Ty|
            0 <= k < variants.len() && #[trigger] wraps(variants[k], inner) && only_wraps(
                variants,
                k,
            ) && (r is Ok || spec_get_nullable_type(tcx, inner) is Ok) implies r
            == spec_get_nullable_type(tcx, inner) by {
            lemma_wrapped_types_one(variants, k, inner);
            lemma_pending_insert(tcx.len(), Set::<Ty>::empty(), ty);
            assert(r == nullable_below(tcx, inner, Set::<Ty>::empty().insert(ty)));
            if r is Ok {
                crate::nullable::lemma_nullable_below(
                    tcx,
                    inner,
                    Set::<Ty>::empty().insert(ty),
                    Set::empty(),
                );
            } else {
                lemma_nullable_avoids(tcx, ty, inner, inner, Set::empty());
            }
        }
    }
}

/// A type that is found to have a nullable version, or none, is not wrapped in a
/// type that it wraps.
proof fn lemma_nullable_avoids(tcx: TyCtxt, ty: Ty, inner: Ty, t: Ty, path: Set<Ty>)
    requires
        tcx.described(ty),
        tcx.kind_of(ty) matches TyKind::Adt(def) && stands_for_wrapped(tcx, ty, def)
            && wrapped_types(def.variants@) == seq![inner],
        nullable_below(tcx, t, path) is Ok,
        path.contains(inner) || t == inner,
    ensures
        nullable_below(tcx, t, path.insert(ty)) == nullable_below(tcx, t, path),
    decreases pending(tcx.len(), path),
{
    lemma_pending_insert(tcx.len(), path, t);
    if t == ty {
        assert(nullable_below(tcx, inner, path.insert(ty)) is Ok);
        assert(path.insert(ty).contains(inner));
        assert(false);
    }
    if let TyKind::Adt(def) = tcx.kind_of(t) {
        if stands_for_wrapped(tcx, t, def) {
            let tys = wrapped_types(def.variants@);
            lemma_nullable_avoids(tcx, ty, inner, tys[0], path.insert(t));
            assert(path.insert(t).insert(ty) =~= path.insert(ty).insert(t));
        }
    }
}

/// Whether an enum is `Option`-like: of its two variants one has no field and the
/// other has one, of the type `held`.
pub open spec fn holds_one(def: AdtDef, held: Ty) -> bool {
    &&& def.variants@.len() == 2
    &&& exists|full: int, bare: int|
        #![trigger def.variants@[full], def.variants@[bare]]
        {
            &&& 0 <= full < 2
            &&& bare == 1 - full
            &&& def.variants@[bare].fields@.len() == 0
            &&& def.variants@[full].fields@.len() == 1
            &&& def.variants@[full].fields@[0].ty == held
        }
}

/// Whether two sizes are certain to be the same: they are the same number of bytes,
/// or those of pointers with the same metadata.
pub open spec fn equal_sizes(a: SizeSkeleton, b: SizeSkeleton) -> bool {
    ||| a matches SizeSkeleton::Known(n) && b == SizeSkeleton::Known(n)
    ||| a matches SizeSkeleton::Pointer { tail: s, .. } && b matches SizeSkeleton::Pointer {
        tail: t,
        ..
    } && s == t
}

/// Sizes are compared as numbers of bytes, or by the metadata of pointers.
pub proof fn lemma_same_size(a: SizeSkeleton, b: SizeSkeleton)
    ensures
        a.spec_same_size(b) <==> equal_sizes(a, b),
{
}

/// A type that is not described is asked for. One that is no `Option`-like
/// definition is not represented as a nullable pointer.
pub proof fn lemma_not_option_like(tcx: TyCtxt, ty: Ty, ckind: CItemKind)
    ensures
        ({
            let r = spec_repr_nullable_ptr(tcx, ty, ckind);
            &&& !tcx.described(ty) ==> r == Err::<Option<NullableTy>, CheckError>(
                CheckError::Undescribed(ty),
            )
            &&& tcx.described(ty) && !(tcx.kind_of(ty) matches TyKind::Adt(def) && exists|
                held: Ty,
            | #[trigger] holds_one(def, held)) ==> r == Ok::<Option<NullableTy>, CheckError>(None)
        }),
{
    if let TyKind::Adt(def) = tcx.kind_of(ty) {
        if let Some(held) = option_like_field(def.variants@) {
            lemma_holds_one(def, held);
        }
    }
}

proof fn lemma_holds_one(def: AdtDef, held: Ty)
    ensures
        holds_one(def, held) <==> option_like_field(def.variants@) == Some(held),
{
    let variants = def.variants@;
    if holds_one(def, held) {
        let (full, bare) = choose|full: int, bare: int|
            #![trigger def.variants@[full], def.variants@[bare]]
            {
                &&& 0 <= full < 2
                &&& bare == 1 - full
                &&& def.variants@[bare].fields@.len() == 0
                &&& def.variants@[full].fields@.len() == 1
                &&& def.variants@[full].fields@[0].ty == held
            };
        assert(variants[full].fields@.len() == 1 && variants[bare].fields@.len() == 0);
    }
    if option_like_field(variants) == Some(held) {
        if variants[0].fields@.len() == 0 {
            assert(variants[1].fields@[0].ty == held && variants[0].fields@.len() == 0);
        } else {
            assert(variants[0].fields@[0].ty == held && variants[1].fields@.len() == 0);
        }
    }
}

/// An `Option`-like enum is not represented as a nullable pointer if what it holds
/// may be null.
pub proof fn lemma_option_of_nullable(tcx: TyCtxt, ty: Ty, ckind: CItemKind, def: AdtDef, held: Ty)
    requires
        tcx.described(ty),
        tcx.kind_of(ty) == TyKind::Adt(def),
        holds_one(def, held),
    ensures
        match spec_ty_is_known_nonnull(tcx, held, ckind) {
            Ok(nonnull) => !nonnull ==> spec_repr_nullable_ptr(tcx, ty, ckind) == Ok::<
                Option<NullableTy>,
                CheckError,
            >(None),
            Err(e) => spec_repr_nullable_ptr(tcx, ty, ckind) == Err::<
                Option<NullableTy>,
                CheckError,
            >(e),
        },
{
    lemma_holds_one(def, held);
}

/// An `Option`-like enum around a type that is never null has the size of that
/// type, or that is an error. If the type is no scalar in memory, the enum is not
/// represented as a nullable pointer. If it is one, it leaves a value free for
/// null: its values begin at one, or they begin at zero and end right before the
/// largest; any others are an error. The enum is then represented as the nullable
/// version of the type, which it must have.
pub proof fn lemma_option_of_nonnull(
    tcx: TyCtxt,
    ty: Ty,
    ckind: CItemKind,
    def: AdtDef,
    held: Ty,
)
    requires
        tcx.described(ty),
        tcx.kind_of(ty) == TyKind::Adt(def),
        holds_one(def, held),
        spec_ty_is_known_nonnull(tcx, held, ckind) == Ok::<bool, CheckError>(true),
    ensures
        ({
            let r = spec_repr_nullable_ptr(tcx, ty, ckind);
            let size = tcx.data_of(ty).size_skeleton;
            let held_size = tcx.data_of(held).size_skeleton;
            let layout = tcx.data_of(held).layout;
            let fails = |e: CheckError| Err::<Option<NullableTy>, CheckError>(e);
            let sized = size is Some && held_size is Some && equal_sizes(size->0, held_size->0);
            &&& size is None ==> r == fails(CheckError::UnknownSize(ty))
            &&& size is Some && held_size is None ==> r == fails(CheckError::UnknownSize(held))
            &&& size is Some && held_size is Some && !sized ==> r == fails(
                CheckError::NonnullOptimizationNotApplied(ty),
            )
            &&& sized && layout is None ==> r == fails(CheckError::UnknownLayout(held))
            &&& sized && layout == Some(Layout::Other) ==> r == Ok::<
                Option<NullableTy>,
                CheckError,
            >(None)
            &&& sized ==> (layout matches Some(Layout::Scalar(scalar)) ==> {
                let free = scalar.valid_start == 1 || (scalar.valid_start == 0
                    && scalar.valid_end + 1 == scalar.unsigned_int_max);
                &&& !free ==> r == fails(
                    CheckError::UnhandledRange {
                        start: scalar.valid_start,
                        end: scalar.valid_end,
                    },
                )
                &&& free ==> match spec_get_nullable_type(tcx, held) {
                    Ok(Some(nullable)) => r == Ok::<Option<NullableTy>, CheckError>(
                        Some(nullable),
                    ),
                    Ok(None) => r == fails(CheckError::NoNullableType(held)),
                    Err(e) => r == fails(e),
                }
            })
        }),
{
    lemma_holds_one(def, held);
    if let (Some(size), Some(held_size)) = (
        tcx.data_of(ty).size_skeleton,
        tcx.data_of(held).size_skeleton,
    ) {
        lemma_same_size(size, held_size);
    }
}

/// An `Option`-like enum around a function pointer, or around a reference, is
/// represented as a nullable pointer in either mode: as that function pointer, or
/// as the raw pointer to what the reference points to.
pub proof fn lemma_option_of_pointer(
    tcx: TyCtxt,
    ty: Ty,
    ckind: CItemKind,
    def: AdtDef,
    held: Ty,
)
    requires
        tcx.described(ty),
        tcx.kind_of(ty) == TyKind::Adt(def),
        holds_one(def, held),
        tcx.described(held),
        tcx.data_of(ty).size_skeleton matches Some(size) && tcx.data_of(held).size_skeleton matches
            Some(held_size) && equal_sizes(size, held_size),
        tcx.data_of(held).layout matches Some(Layout::Scalar(scalar)) && scalar.valid_start == 1,
    ensures
        tcx.kind_of(held) is FnPtr ==> spec_repr_nullable_ptr(tcx, ty, ckind) == Ok::<
            Option<NullableTy>,
            CheckError,
        >(Some(NullableTy::Existing(held))),
        tcx.kind_of(held) matches TyKind::Ref(pointer) ==> spec_repr_nullable_ptr(tcx, ty, ckind)
            == Ok::<Option<NullableTy>, CheckError>(Some(NullableTy::RawPtr(pointer))),
{
    lemma_nonnull_kinds(tcx, held, ckind);
    lemma_nullable_kinds(tcx, held);
    if tcx.kind_of(held) is FnPtr || tcx.kind_of(held) is Ref {
        lemma_option_of_nonnull(tcx, ty, ckind, def, held);
    }
}

} // verus!
