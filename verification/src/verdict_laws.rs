//! What the verdict on a type is, kind by kind.
//!
//! Each law speaks of a type as the table describes it and of the verdict that
//! the check gives on it. Where a verdict rests on those on other types, the law
//! says how the one follows from the others.

use vstd::prelude::*;

use crate::check::{
    check_all, check_field, check_fields, check_type, check_variant, check_variants, follow_rule,
    lemma_check_type_keeps_seen, rule_of, Checked, FfiResult, Rule,
};
use crate::error::{CheckError, Reason};
use crate::nullable::{first_non_zst, spec_repr_nullable_ptr, CItemKind};
use crate::nullable_laws::{
    lemma_wraps_at, lemma_wraps_nothing, no_special_box, wraps_at, wraps_nothing,
};
use crate::ty::{
    AbiKind, AdtDef, AdtKind, AliasKind, FieldDef, FnSig, IntTy, Ty, TyCtxt, TyKind, UintTy,
    VariantDef,
};

verus! {

/// Whether a type is described and was not met before.
pub open spec fn fresh(tcx: TyCtxt, ty: Ty, seen: Set<Ty>) -> bool {
    tcx.described(ty) && !seen.contains(ty)
}

/// The check ends at `ty` itself: it has the given verdict, and no other type is
/// met.
pub open spec fn ends_with(after: Checked, ty: Ty, seen: Set<Ty>, verdict: FfiResult) -> bool {
    &&& after.result == Ok::<FfiResult, CheckError>(verdict)
    &&& after.seen == seen.insert(ty)
}

/// The check ends at `ty` without a verdict.
pub open spec fn fails_with(after: Checked, e: CheckError) -> bool {
    after.result == Err::<FfiResult, CheckError>(e)
}

/// A type that is not described is asked for.
pub proof fn lemma_undescribed_asked_for(tcx: TyCtxt, mode: CItemKind, ty: Ty, seen: Set<Ty>)
    requires
        !tcx.described(ty),
        !seen.contains(ty),
    ensures
        fails_with(check_type(tcx, mode, ty, seen), CheckError::Undescribed(ty)),
        check_type(tcx, mode, ty, seen).seen == seen.insert(ty),
{
}

/// Booleans, numbers of up to 64 bits, `!` and foreign types are safe, in either
/// mode.
pub proof fn lemma_primitives_safe(tcx: TyCtxt, mode: CItemKind, ty: Ty, seen: Set<Ty>)
    requires
        fresh(tcx, ty, seen),
        ({
            ||| tcx.kind_of(ty) is Bool
            ||| tcx.kind_of(ty) is Float
            ||| tcx.kind_of(ty) is Never
            ||| tcx.kind_of(ty) is Foreign
            ||| tcx.kind_of(ty) matches TyKind::Int(width) && width != IntTy::I128
            ||| tcx.kind_of(ty) matches TyKind::Uint(width) && width != UintTy::U128
        }),
    ensures
        ends_with(check_type(tcx, mode, ty, seen), ty, seen, FfiResult::FfiSafe),
{
}

/// The kinds of types that are improper whatever they are made of, and why, in
/// either mode.
pub proof fn lemma_improper_kinds(tcx: TyCtxt, mode: CItemKind, ty: Ty, seen: Set<Ty>)
    requires
        fresh(tcx, ty, seen),
    ensures
        ({
            let after = check_type(tcx, mode, ty, seen);
            let kind = tcx.kind_of(ty);
            let improper = |reason: Reason| FfiResult::FfiUnsafe { ty, reason };
            &&& kind is Char ==> ends_with(after, ty, seen, improper(Reason::Char))
            &&& kind == TyKind::Int(IntTy::I128) ==> ends_with(
                after,
                ty,
                seen,
                improper(Reason::Bit128),
            )
            &&& kind == TyKind::Uint(UintTy::U128) ==> ends_with(
                after,
                ty,
                seen,
                improper(Reason::Bit128),
            )
            &&& kind is Slice ==> ends_with(after, ty, seen, improper(Reason::Slice))
            &&& kind is Dynamic ==> ends_with(after, ty, seen, improper(Reason::Dyn))
            &&& kind is Str ==> ends_with(after, ty, seen, improper(Reason::Str))
            &&& kind is Tuple ==> ends_with(after, ty, seen, improper(Reason::Tuple))
            &&& kind == TyKind::Alias(AliasKind::Opaque) ==> ends_with(
                after,
                ty,
                seen,
                improper(Reason::Opaque),
            )
        }),
{
}

/// Type parameters and projections are passed over in definitions. In
/// declarations, and for kinds that have no place in a signature, there is no
/// verdict.
pub proof fn lemma_unexpected_kinds(tcx: TyCtxt, mode: CItemKind, ty: Ty, seen: Set<Ty>)
    requires
        fresh(tcx, ty, seen),
    ensures
        ({
            let after = check_type(tcx, mode, ty, seen);
            let kind = tcx.kind_of(ty);
            let generic = kind is Param || kind == TyKind::Alias(AliasKind::Projection);
            let misplaced = {
                ||| kind is Infer
                ||| kind is Bound
                ||| kind is Error
                ||| kind is Closure
                ||| kind is Generator
                ||| kind is GeneratorWitness
                ||| kind is Placeholder
                ||| kind is FnDef
            };
            &&& generic && mode == CItemKind::Definition ==> ends_with(
                after,
                ty,
                seen,
                FfiResult::FfiSafe,
            )
            &&& generic && mode == CItemKind::Declaration ==> fails_with(
                after,
                CheckError::UnexpectedType(ty),
            )
            &&& misplaced ==> fails_with(after, CheckError::UnexpectedType(ty))
        }),
{
}

/// In a definition a `Box` is safe exactly if what it holds is sized.
pub proof fn lemma_box_in_definition(
    tcx: TyCtxt,
    ty: Ty,
    seen: Set<Ty>,
    def: AdtDef,
    boxed: Ty,
)
    requires
        fresh(tcx, ty, seen),
        tcx.kind_of(ty) == TyKind::Adt(def),
        def.boxed_ty == Some(boxed),
    ensures
        ({
            let after = check_type(tcx, CItemKind::Definition, ty, seen);
            &&& !tcx.described(boxed) ==> fails_with(after, CheckError::Undescribed(boxed))
            &&& tcx.described(boxed) && tcx.data_of(boxed).is_sized ==> ends_with(
                after,
                ty,
                seen,
                FfiResult::FfiSafe,
            )
            &&& tcx.described(boxed) && !tcx.data_of(boxed).is_sized ==> ends_with(
                after,
                ty,
                seen,
                FfiResult::FfiUnsafe { ty, reason: Reason::Box },
            )
        }),
{
}

/// `PhantomData` is told apart from all other types, in either mode.
pub proof fn lemma_phantom_data(
    tcx: TyCtxt,
    mode: CItemKind,
    ty: Ty,
    seen: Set<Ty>,
    def: AdtDef,
)
    requires
        fresh(tcx, ty, seen),
        tcx.kind_of(ty) == TyKind::Adt(def),
        no_special_box(mode, def),
        def.is_phantom_data,
    ensures
        ends_with(check_type(tcx, mode, ty, seen), ty, seen, FfiResult::FfiPhantom(ty)),
{
}

/// Whether the type `ty` is a struct or a union, and is judged as such.
pub open spec fn is_plain_struct(tcx: TyCtxt, mode: CItemKind, ty: Ty, def: AdtDef) -> bool {
    &&& tcx.kind_of(ty) == TyKind::Adt(def)
    &&& no_special_box(mode, def)
    &&& !def.is_phantom_data
    &&& def.kind == AdtKind::Struct || def.kind == AdtKind::Union
}

/// In either mode a struct or a union without `repr(C)` and `repr(transparent)`
/// is improper for its layout, whatever its fields are.
pub proof fn lemma_struct_without_layout(
    tcx: TyCtxt,
    mode: CItemKind,
    ty: Ty,
    seen: Set<Ty>,
    def: AdtDef,
)
    requires
        fresh(tcx, ty, seen),
        is_plain_struct(tcx, mode, ty, def),
        !def.repr.c,
        !def.repr.transparent,
    ensures
        ({
            let after = check_type(tcx, mode, ty, seen);
            &&& def.kind == AdtKind::Struct ==> ends_with(
                after,
                ty,
                seen,
                FfiResult::FfiUnsafe { ty, reason: Reason::StructLayout },
            )
            &&& def.kind == AdtKind::Union ==> ends_with(
                after,
                ty,
                seen,
                FfiResult::FfiUnsafe { ty, reason: Reason::UnionLayout },
            )
        }),
{
}

/// In either mode a struct or a union with a layout is improper if its fields are
/// kept open in another crate, and else if it has none.
pub proof fn lemma_struct_open_or_fieldless(
    tcx: TyCtxt,
    mode: CItemKind,
    ty: Ty,
    seen: Set<Ty>,
    def: AdtDef,
)
    requires
        fresh(tcx, ty, seen),
        is_plain_struct(tcx, mode, ty, def),
        def.repr.c || def.repr.transparent,
    ensures
        ({
            let after = check_type(tcx, mode, ty, seen);
            let is_struct = def.kind == AdtKind::Struct;
            let variant = def.variants@[0];
            let open = variant.is_field_list_non_exhaustive && !def.is_local;
            let improper = |reason: Reason| FfiResult::FfiUnsafe { ty, reason };
            &&& def.variants@.len() == 0 ==> fails_with(after, CheckError::NoVariant(ty))
            &&& def.variants@.len() > 0 ==> {
                &&& open && is_struct ==> ends_with(
                    after,
                    ty,
                    seen,
                    improper(Reason::StructNonExhaustive),
                )
                &&& open && !is_struct ==> ends_with(
                    after,
                    ty,
                    seen,
                    improper(Reason::UnionNonExhaustive),
                )
                &&& !open && variant.fields@.len() == 0 && is_struct ==> ends_with(
                    after,
                    ty,
                    seen,
                    improper(Reason::StructFieldless),
                )
                &&& !open && variant.fields@.len() == 0 && !is_struct ==> ends_with(
                    after,
                    ty,
                    seen,
                    improper(Reason::UnionFieldless),
                )
            }
        }),
{
}

/// Whether the verdict on the type `ty`, a struct or a union, is left to the
/// fields of its one variant.
pub open spec fn left_to_fields(
    tcx: TyCtxt,
    mode: CItemKind,
    ty: Ty,
    def: AdtDef,
    variant: VariantDef,
) -> bool {
    &&& is_plain_struct(tcx, mode, ty, def)
    &&& def.repr.c || def.repr.transparent
    &&& def.variants@.len() > 0
    &&& def.variants@[0] == variant
    &&& !(variant.is_field_list_non_exhaustive && !def.is_local)
    &&& variant.fields@.len() > 0
}

/// Whether the field is checked under the type `under`: its own type if an opaque
/// type occurs in it, and else what that normalizes to.
pub open spec fn checked_under(tcx: TyCtxt, field: FieldDef, under: Ty) -> bool {
    &&& tcx.described(field.ty)
    &&& if tcx.data_of(field.ty).has_opaque_types {
        under == field.ty
    } else {
        tcx.data_of(field.ty).normalized == Some(under)
    }
}

/// Why there is no type under which a field could be checked.
pub open spec fn not_checkable(tcx: TyCtxt, field: FieldDef, e: CheckError) -> bool {
    if !tcx.described(field.ty) {
        e == CheckError::Undescribed(field.ty)
    } else {
        &&& !tcx.data_of(field.ty).has_opaque_types
        &&& tcx.data_of(field.ty).normalized is None
        &&& e == CheckError::CannotNormalize(field.ty)
    }
}

/// A field is judged as the type under which it is checked; without one there is
/// no verdict.
pub proof fn lemma_field_checked(tcx: TyCtxt, mode: CItemKind, field: FieldDef, seen: Set<Ty>)
    ensures
        forall|under: Ty| #[trigger]
            checked_under(tcx, field, under) ==> check_field(tcx, mode, field, seen) == check_type(
                tcx,
                mode,
                under,
                seen,
            ),
        forall|e: CheckError| #[trigger]
            not_checkable(tcx, field, e) ==> fails_with(check_field(tcx, mode, field, seen), e),
{
}

/// A struct or a union that is left to its fields is judged as its one variant.
proof fn lemma_struct_as_variant(
    tcx: TyCtxt,
    mode: CItemKind,
    ty: Ty,
    seen: Set<Ty>,
    def: AdtDef,
    variant: VariantDef,
)
    requires
        fresh(tcx, ty, seen),
        left_to_fields(tcx, mode, ty, def, variant),
    ensures
        check_type(tcx, mode, ty, seen) == check_variant(
            tcx,
            mode,
            ty,
            def,
            variant,
            seen.insert(ty),
        ),
{
    let rule = rule_of(tcx, mode, ty);
    assert(rule == Rule::Struct(def, variant));
    assert(follow_rule(tcx, mode, ty, rule, seen.insert(ty)) == check_variant(
        tcx,
        mode,
        ty,
        def,
        variant,
        seen.insert(ty),
    ));
}

/// An enum that is left to its variants is judged by them.
proof fn lemma_enum_as_variants(
    tcx: TyCtxt,
    mode: CItemKind,
    ty: Ty,
    seen: Set<Ty>,
    def: AdtDef,
)
    requires
        fresh(tcx, ty, seen),
        left_to_variants(tcx, mode, ty, def),
    ensures
        check_type(tcx, mode, ty, seen) == check_variants(
            tcx,
            mode,
            ty,
            def,
            0,
            seen.insert(ty),
        ),
{
    let rule = rule_of(tcx, mode, ty);
    assert(rule == Rule::Enum(def));
    assert(follow_rule(tcx, mode, ty, rule, seen.insert(ty)) == check_variants(
        tcx,
        mode,
        ty,
        def,
        0,
        seen.insert(ty),
    ));
}

/// A transparent struct or union is judged by its first field of non-zero size,
/// as that is judged where the struct is already met; one without such a field is
/// improper.
pub proof fn lemma_transparent_struct(
    tcx: TyCtxt,
    mode: CItemKind,
    ty: Ty,
    seen: Set<Ty>,
    def: AdtDef,
    variant: VariantDef,
)
    requires
        fresh(tcx, ty, seen),
        left_to_fields(tcx, mode, ty, def, variant),
        def.repr.transparent,
    ensures
        ({
            let after = check_type(tcx, mode, ty, seen);
            &&& wraps_nothing(variant) ==> ends_with(
                after,
                ty,
                seen,
                FfiResult::FfiUnsafe { ty, reason: Reason::StructZeroSized },
            )
            &&& forall|i: int, under: Ty|
                #![trigger wraps_at(variant, i), checked_under(tcx, variant.fields@[i], under)]
                wraps_at(variant, i) && checked_under(tcx, variant.fields@[i], under) ==> after
                    == check_type(tcx, mode, under, seen.insert(ty))
            &&& forall|i: int, e: CheckError|
                #![trigger wraps_at(variant, i), not_checkable(tcx, variant.fields@[i], e)]
                wraps_at(variant, i) && not_checkable(tcx, variant.fields@[i], e) ==> fails_with(
                    after,
                    e,
                )
        }),
{
    lemma_struct_as_variant(tcx, mode, ty, seen, def, variant);
    if wraps_nothing(variant) {
        lemma_wraps_nothing(variant);
    }
    assert forall|i: int| #[trigger] wraps_at(variant, i) implies first_non_zst(variant.fields@)
        == Some(variant.fields@[i]) by {
        lemma_wraps_at(variant, i);
    }
}

/// The checks of some fields, in order, each under a type.
pub struct Walk {
    pub tys: Seq<Ty>,
    pub checks: Seq<Checked>,
}

/// The types met before the `j`th of some checks that follow each other.
pub open spec fn met_before(met: Set<Ty>, checks: Seq<Checked>, j: int) -> Set<Ty> {
    if j <= 0 {
        met
    } else {
        checks[j - 1].seen
    }
}

/// The types met after all of some checks that follow each other.
pub open spec fn met_after(met: Set<Ty>, checks: Seq<Checked>) -> Set<Ty> {
    met_before(met, checks, checks.len() as int)
}

/// Whether the `j`th check of a walk is that of the `j`th field, with the types
/// met that were met before.
pub open spec fn is_step(
    tcx: TyCtxt,
    mode: CItemKind,
    fields: Seq<FieldDef>,
    met: Set<Ty>,
    walk: Walk,
    j: int,
) -> bool {
    &&& checked_under(tcx, fields[j], walk.tys[j])
    &&& walk.checks[j] == check_type(tcx, mode, walk.tys[j], met_before(met, walk.checks, j))
}

/// Whether a walk consists of the checks of the first fields, in order.
pub open spec fn is_walk(
    tcx: TyCtxt,
    mode: CItemKind,
    fields: Seq<FieldDef>,
    met: Set<Ty>,
    walk: Walk,
) -> bool {
    &&& walk.tys.len() == walk.checks.len()
    &&& walk.checks.len() <= fields.len()
    &&& forall|j: int|
        0 <= j < walk.checks.len() ==> #[trigger] is_step(tcx, mode, fields, met, walk, j)
}

/// Whether a check ends with the verdict that all is well.
pub open spec fn is_safe(checked: Checked) -> bool {
    checked.result == Ok::<FfiResult, CheckError>(FfiResult::FfiSafe)
}

/// Whether a check ends with the verdict that there is nothing but phantom data.
pub open spec fn is_phantom(checked: Checked) -> bool {
    checked.result matches Ok(FfiResult::FfiPhantom(_))
}

/// Whether all checks before the `n`th end with the verdict that all is well.
pub open spec fn all_safe(checks: Seq<Checked>, n: int) -> bool {
    forall|j: int| 0 <= j < n ==> is_safe(#[trigger] checks[j])
}

/// Whether all checks before the `n`th find nothing improper.
pub open spec fn none_improper(checks: Seq<Checked>, n: int) -> bool {
    forall|j: int| 0 <= j < n ==> is_safe(#[trigger] checks[j]) || is_phantom(checks[j])
}

proof fn lemma_fields_walked(
    tcx: TyCtxt,
    mode: CItemKind,
    ty: Ty,
    def: AdtDef,
    fields: Seq<FieldDef>,
    met: Set<Ty>,
    walk: Walk,
    n: int,
)
    requires
        is_walk(tcx, mode, fields, met, walk),
        0 <= n <= walk.checks.len(),
        none_improper(walk.checks, n),
        def.kind is Enum ==> all_safe(walk.checks, n),
    ensures
        check_fields(tcx, mode, ty, def, fields, 0, fields.len() > 0, met) == check_fields(
            tcx,
            mode,
            ty,
            def,
            fields,
            n,
            fields.len() > 0 && forall|j: int|
                0 <= j < n ==> is_phantom(#[trigger] walk.checks[j]),
            met_before(met, walk.checks, n),
        ),
    decreases n,
{
    if n > 0 {
        lemma_fields_walked(tcx, mode, ty, def, fields, met, walk, n - 1);
        let here = met_before(met, walk.checks, n - 1);
        assert(is_step(tcx, mode, fields, met, walk, n - 1));
        let checked = walk.checks[n - 1];
        assert(checked == check_field(tcx, mode, fields[n - 1], here));
        lemma_check_type_keeps_seen(tcx, mode, walk.tys[n - 1], here);
        assert(here.union(checked.seen) =~= checked.seen);
        assert(is_safe(checked) || is_phantom(checked));
    }
}

proof fn lemma_field_not_checkable(tcx: TyCtxt, mode: CItemKind, field: FieldDef, met: Set<Ty>)
    ensures
        forall|e: CheckError| #[trigger]
            not_checkable(tcx, field, e) ==> check_field(tcx, mode, field, met).result == Err::<
                FfiResult,
                CheckError,
            >(e),
{
}

/// A struct or a union that is not transparent is judged by its fields, in order.
/// The first that is improper, or has no verdict, decides. If none is, the struct
/// is phantom data if all its fields are, and else safe.
pub proof fn lemma_struct_by_fields(
    tcx: TyCtxt,
    mode: CItemKind,
    ty: Ty,
    seen: Set<Ty>,
    def: AdtDef,
    variant: VariantDef,
    walk: Walk,
)
    requires
        fresh(tcx, ty, seen),
        left_to_fields(tcx, mode, ty, def, variant),
        !def.repr.transparent,
        is_walk(tcx, mode, variant.fields@, seen.insert(ty), walk),
        none_improper(walk.checks, walk.checks.len() - 1),
    ensures
        ({
            let after = check_type(tcx, mode, ty, seen);
            let n = walk.checks.len();
            let fields = variant.fields@;
            &&& n > 0 && !is_safe(walk.checks[n - 1]) && !is_phantom(walk.checks[n - 1]) ==> after
                == walk.checks[n - 1]
            &&& n == fields.len() && (forall|j: int|
                0 <= j < n ==> is_phantom(#[trigger] walk.checks[j])) ==> after.result == Ok::<
                FfiResult,
                CheckError,
            >(FfiResult::FfiPhantom(ty)) && after.seen == walk.checks[n - 1].seen
            &&& n == fields.len() && none_improper(walk.checks, n as int) && (exists|j: int|
                0 <= j < n && is_safe(#[trigger] walk.checks[j])) ==> is_safe(after)
                && after.seen == walk.checks[n - 1].seen
            &&& n < fields.len() && none_improper(walk.checks, n as int) ==> forall|e: CheckError|
                #[trigger] not_checkable(tcx, fields[n as int], e) ==> fails_with(after, e)
        }),
{
    let n = walk.checks.len();
    let met = seen.insert(ty);
    let fields = variant.fields@;
    lemma_struct_as_variant(tcx, mode, ty, seen, def, variant);
    if n > 0 {
        lemma_fields_walked(tcx, mode, ty, def, fields, met, walk, n - 1);
        let here = met_before(met, walk.checks, n - 1);
        assert(is_step(tcx, mode, fields, met, walk, n - 1));
        assert(walk.checks[n - 1] == check_field(tcx, mode, fields[n - 1], here));
    }
    if none_improper(walk.checks, n as int) {
        lemma_fields_walked(tcx, mode, ty, def, fields, met, walk, n as int);
        if n < fields.len() {
            lemma_field_not_checkable(tcx, mode, fields[n as int], met_after(met, walk.checks));
        }
        if exists|j: int| 0 <= j < n && is_safe(#[trigger] walk.checks[j]) {
            let j = choose|j: int| 0 <= j < n && is_safe(#[trigger] walk.checks[j]);
            assert(!is_phantom(walk.checks[j]));
        }
    } else if n == fields.len() && forall|j: int|
        0 <= j < n ==> is_phantom(#[trigger] walk.checks[j]) {
        assert(none_improper(walk.checks, n as int));
    }
}

/// Whether the type `ty` is an enum, and is judged as such.
pub open spec fn is_plain_enum(tcx: TyCtxt, mode: CItemKind, ty: Ty, def: AdtDef) -> bool {
    &&& tcx.kind_of(ty) == TyKind::Adt(def)
    &&& no_special_box(mode, def)
    &&& !def.is_phantom_data
    &&& def.kind == AdtKind::Enum
}

/// An enum without variants is safe, in either mode.
pub proof fn lemma_empty_enum(
    tcx: TyCtxt,
    mode: CItemKind,
    ty: Ty,
    seen: Set<Ty>,
    def: AdtDef,
)
    requires
        fresh(tcx, ty, seen),
        is_plain_enum(tcx, mode, ty, def),
        def.variants@.len() == 0,
    ensures
        ends_with(check_type(tcx, mode, ty, seen), ty, seen, FfiResult::FfiSafe),
{
}

/// Whether a `repr` attribute fixes how an enum is represented.
pub open spec fn has_repr(def: AdtDef) -> bool {
    def.repr.c || def.repr.transparent || def.repr.int
}

/// In either mode an enum without a `repr` attribute is improper, unless it is
/// represented as a nullable pointer.
pub proof fn lemma_enum_without_representation(
    tcx: TyCtxt,
    mode: CItemKind,
    ty: Ty,
    seen: Set<Ty>,
    def: AdtDef,
)
    requires
        fresh(tcx, ty, seen),
        is_plain_enum(tcx, mode, ty, def),
        def.variants@.len() > 0,
        !has_repr(def),
    ensures
        ({
            let after = check_type(tcx, mode, ty, seen);
            match spec_repr_nullable_ptr(tcx, ty, mode) {
                Ok(Some(_)) => after.result != Ok::<FfiResult, CheckError>(
                    FfiResult::FfiUnsafe { ty, reason: Reason::EnumNoRepresentation },
                ),
                Ok(None) => ends_with(
                    after,
                    ty,
                    seen,
                    FfiResult::FfiUnsafe { ty, reason: Reason::EnumNoRepresentation },
                ),
                Err(e) => fails_with(after, e),
            }
        }),
{
    if spec_repr_nullable_ptr(tcx, ty, mode) matches Ok(Some(_)) {
        crate::check_laws::lemma_nullable_enum_represented(tcx, mode, ty, seen);
    }
}

/// Whether the representation of an enum is fixed: by a `repr` attribute, or
/// because it is represented as a nullable pointer.
pub open spec fn is_represented(tcx: TyCtxt, mode: CItemKind, ty: Ty, def: AdtDef) -> bool {
    has_repr(def) || spec_repr_nullable_ptr(tcx, ty, mode) matches Ok(Some(_))
}

/// In either mode an enum of another crate that may get more variants is
/// improper.
pub proof fn lemma_enum_open(
    tcx: TyCtxt,
    mode: CItemKind,
    ty: Ty,
    seen: Set<Ty>,
    def: AdtDef,
)
    requires
        fresh(tcx, ty, seen),
        is_plain_enum(tcx, mode, ty, def),
        def.variants@.len() > 0,
        is_represented(tcx, mode, ty, def),
        def.is_variant_list_non_exhaustive,
        !def.is_local,
    ensures
        ends_with(
            check_type(tcx, mode, ty, seen),
            ty,
            seen,
            FfiResult::FfiUnsafe { ty, reason: Reason::EnumNonExhaustive },
        ),
{
}

/// Whether the verdict on the type `ty`, an enum, is left to its variants.
pub open spec fn left_to_variants(tcx: TyCtxt, mode: CItemKind, ty: Ty, def: AdtDef) -> bool {
    &&& is_plain_enum(tcx, mode, ty, def)
    &&& def.variants@.len() > 0
    &&& is_represented(tcx, mode, ty, def)
    &&& !(def.is_variant_list_non_exhaustive && !def.is_local)
}

/// Whether the fields of a variant that count are `fields`: all of them, or of a
/// transparent enum the first of non-zero size.
pub open spec fn fields_that_count(
    def: AdtDef,
    variant: VariantDef,
    fields: Seq<FieldDef>,
) -> bool {
    if def.repr.transparent {
        exists|i: int| #[trigger] wraps_at(variant, i) && fields == seq![variant.fields@[i]]
    } else {
        fields == variant.fields@
    }
}

/// Whether a variant of another crate may get more fields.
pub open spec fn is_open_variant(variant: VariantDef) -> bool {
    variant.is_field_list_non_exhaustive && !variant.is_local
}

/// The types met after the first `n` walks.
pub open spec fn met_after_walks(met: Set<Ty>, walks: Seq<Walk>, n: int) -> Set<Ty>
    decreases n,
{
    if n <= 0 {
        met
    } else {
        met_after(met_after_walks(met, walks, n - 1), walks[n - 1].checks)
    }
}

/// Whether the `v`th variant of an enum is found safe: all its fields that count
/// are, one after the other.
pub open spec fn variant_safe(
    tcx: TyCtxt,
    mode: CItemKind,
    def: AdtDef,
    met: Set<Ty>,
    fields: Seq<Seq<FieldDef>>,
    walks: Seq<Walk>,
    v: int,
) -> bool {
    let checks = walks[v].checks;
    &&& !is_open_variant(def.variants@[v])
    &&& fields_that_count(def, def.variants@[v], fields[v])
    &&& is_walk(tcx, mode, fields[v], met_after_walks(met, walks, v), walks[v])
    &&& checks.len() == fields[v].len()
    &&& all_safe(checks, checks.len() as int)
}

/// Whether the first `n` variants of an enum are found safe, one after the other.
pub open spec fn variants_safe(
    tcx: TyCtxt,
    mode: CItemKind,
    def: AdtDef,
    met: Set<Ty>,
    fields: Seq<Seq<FieldDef>>,
    walks: Seq<Walk>,
    n: int,
) -> bool {
    forall|v: int|
        0 <= v < n ==> #[trigger] variant_safe(tcx, mode, def, met, fields, walks, v)
}

proof fn lemma_variants_walked(
    tcx: TyCtxt,
    mode: CItemKind,
    ty: Ty,
    def: AdtDef,
    met: Set<Ty>,
    fields: Seq<Seq<FieldDef>>,
    walks: Seq<Walk>,
    n: int,
)
    requires
        def.kind is Enum,
        0 <= n <= def.variants@.len(),
        variants_safe(tcx, mode, def, met, fields, walks, n),
    ensures
        check_variants(tcx, mode, ty, def, 0, met) == check_variants(
            tcx,
            mode,
            ty,
            def,
            n,
            met_after_walks(met, walks, n),
        ),
    decreases n,
{
    if n > 0 {
        let v = n - 1;
        lemma_variants_walked(tcx, mode, ty, def, met, fields, walks, v);
        assert(variant_safe(tcx, mode, def, met, fields, walks, v));
        let here = met_after_walks(met, walks, v);
        let variant = def.variants@[v];
        let walk = walks[v];
        let checked = check_variant(tcx, mode, ty, def, variant, here);
        if def.repr.transparent {
            let i = choose|i: int|
                #[trigger] wraps_at(variant, i) && fields[v] == seq![variant.fields@[i]];
            lemma_wraps_at(variant, i);
            assert(is_step(tcx, mode, fields[v], here, walk, 0));
            assert(fields[v][0] == variant.fields@[i]);
            assert(is_safe(walk.checks[0]));
            lemma_check_type_keeps_seen(tcx, mode, walk.tys[0], here);
        } else {
            let k = walk.checks.len() as int;
            assert(none_improper(walk.checks, k));
            lemma_fields_walked(tcx, mode, ty, def, fields[v], here, walk, k);
            if k > 0 {
                assert(is_safe(walk.checks[0]));
                assert(!is_phantom(walk.checks[0]));
                lemma_walk_keeps(tcx, mode, fields[v], here, walk, k);
            }
        }
        assert(here.union(checked.seen) =~= met_after(here, walk.checks));
    }
}

proof fn lemma_walk_keeps(
    tcx: TyCtxt,
    mode: CItemKind,
    fields: Seq<FieldDef>,
    met: Set<Ty>,
    walk: Walk,
    n: int,
)
    requires
        is_walk(tcx, mode, fields, met, walk),
        0 <= n <= walk.checks.len(),
    ensures
        met.subset_of(met_before(met, walk.checks, n)),
    decreases n,
{
    if n > 0 {
        lemma_walk_keeps(tcx, mode, fields, met, walk, n - 1);
        assert(is_step(tcx, mode, fields, met, walk, n - 1));
        lemma_check_type_keeps_seen(
            tcx,
            mode,
            walk.tys[n - 1],
            met_before(met, walk.checks, n - 1),
        );
    }
}

/// An enum is judged by its variants, in order. If all of them are found safe, so
/// is the enum.
pub proof fn lemma_enum_of_safe_variants(
    tcx: TyCtxt,
    mode: CItemKind,
    ty: Ty,
    seen: Set<Ty>,
    def: AdtDef,
    fields: Seq<Seq<FieldDef>>,
    walks: Seq<Walk>,
)
    requires
        fresh(tcx, ty, seen),
        left_to_variants(tcx, mode, ty, def),
        variants_safe(
            tcx,
            mode,
            def,
            seen.insert(ty),
            fields,
            walks,
            def.variants@.len() as int,
        ),
    ensures
        is_safe(check_type(tcx, mode, ty, seen)),
        check_type(tcx, mode, ty, seen).seen == met_after_walks(
            seen.insert(ty),
            walks,
            def.variants@.len() as int,
        ),
{
    let n = def.variants@.len() as int;
    lemma_enum_as_variants(tcx, mode, ty, seen, def);
    lemma_variants_walked(tcx, mode, ty, def, seen.insert(ty), fields, walks, n);
}

/// The first variant of an enum that is not found safe decides: it is improper if
/// it may get more fields in another crate, if it should wrap a field and has none
/// of non-zero size, or, in an enum that is not transparent, if phantom data occurs
/// in it; else the first of its fields that is not safe decides.
pub proof fn lemma_enum_by_variant(
    tcx: TyCtxt,
    mode: CItemKind,
    ty: Ty,
    seen: Set<Ty>,
    def: AdtDef,
    fields: Seq<Seq<FieldDef>>,
    walks: Seq<Walk>,
    v: int,
)
    requires
        fresh(tcx, ty, seen),
        left_to_variants(tcx, mode, ty, def),
        0 <= v < def.variants@.len(),
        variants_safe(tcx, mode, def, seen.insert(ty), fields, walks, v),
    ensures
        ({
            let after = check_type(tcx, mode, ty, seen);
            let variant = def.variants@[v];
            let here = met_after_walks(seen.insert(ty), walks, v);
            let improper = |reason: Reason| Ok::<FfiResult, CheckError>(
                FfiResult::FfiUnsafe { ty, reason },
            );
            &&& is_open_variant(variant) ==> after.result == improper(
                Reason::EnumNonExhaustiveVariant,
            )
            &&& !is_open_variant(variant) && def.repr.transparent && wraps_nothing(variant)
                ==> after.result == improper(Reason::StructZeroSized)
            &&& forall|of: Seq<FieldDef>, walk: Walk|
                !is_open_variant(variant) && fields_that_count(def, variant, of)
                    && #[trigger] is_walk(tcx, mode, of, here, walk) ==> decided_by_field(
                    tcx,
                    ty,
                    def,
                    of,
                    walk,
                    after,
                )
        }),
{
    let met = seen.insert(ty);
    lemma_enum_as_variants(tcx, mode, ty, seen, def);
    lemma_variants_walked(tcx, mode, ty, def, met, fields, walks, v);
    let variant = def.variants@[v];
    let here = met_after_walks(met, walks, v);
    if wraps_nothing(variant) {
        lemma_wraps_nothing(variant);
    }
    let after = check_type(tcx, mode, ty, seen);
    assert forall|of: Seq<FieldDef>, walk: Walk|
        !is_open_variant(variant) && fields_that_count(def, variant, of) && #[trigger] is_walk(
            tcx,
            mode,
            of,
            here,
            walk,
        ) implies decided_by_field(tcx, ty, def, of, walk, after) by {
        lemma_enum_by_field(tcx, mode, ty, def, variant, of, here, walk);
    }
}

/// Whether the last check of a walk decides on an enum, where all others before it
/// end well: as it does by itself, but that phantom data makes an enum improper
/// that is not transparent. Behind the last check, a field without a type to check
/// it under decides.
pub open spec fn decided_by_field(
    tcx: TyCtxt,
    ty: Ty,
    def: AdtDef,
    fields: Seq<FieldDef>,
    walk: Walk,
    after: Checked,
) -> bool {
    let n = walk.checks.len();
    &&& n > 0 && all_safe(walk.checks, n - 1) && !is_safe(walk.checks[n - 1]) ==> if is_phantom(
        walk.checks[n - 1],
    ) && !def.repr.transparent {
        after.result == Ok::<FfiResult, CheckError>(
            FfiResult::FfiUnsafe { ty, reason: Reason::EnumPhantomData },
        )
    } else {
        after == walk.checks[n - 1]
    }
    &&& n < fields.len() && all_safe(walk.checks, n as int) ==> forall|e: CheckError| #[trigger]
        not_checkable(tcx, fields[n as int], e) ==> fails_with(after, e)
}

proof fn lemma_enum_by_field(
    tcx: TyCtxt,
    mode: CItemKind,
    ty: Ty,
    def: AdtDef,
    variant: VariantDef,
    of: Seq<FieldDef>,
    here: Set<Ty>,
    walk: Walk,
)
    requires
        def.kind is Enum,
        fields_that_count(def, variant, of),
        is_walk(tcx, mode, of, here, walk),
    ensures
        ({
            let checked = check_variant(tcx, mode, ty, def, variant, here);
            &&& decided_by_field(tcx, ty, def, of, walk, checked)
            &&& walk.checks.len() > 0 && all_safe(walk.checks, walk.checks.len() - 1) && !is_safe(
                walk.checks[walk.checks.len() - 1],
            ) ==> !is_safe(checked)
        }),
{
    let n = walk.checks.len();
    if def.repr.transparent {
        let i = choose|i: int| #[trigger]
            wraps_at(variant, i) && of == seq![variant.fields@[i]];
        lemma_wraps_at(variant, i);
        assert(of[0] == variant.fields@[i]);
        lemma_field_not_checkable(tcx, mode, of[0], here);
        if n > 0 {
            assert(is_step(tcx, mode, of, here, walk, 0));
        }
    } else {
        if n > 0 && all_safe(walk.checks, n - 1) {
            assert(none_improper(walk.checks, n - 1));
            lemma_fields_walked(tcx, mode, ty, def, of, here, walk, n - 1);
            let before = met_before(here, walk.checks, n - 1);
            assert(is_step(tcx, mode, of, here, walk, n - 1));
            assert(walk.checks[n - 1] == check_field(tcx, mode, of[n - 1], before));
        }
        if n < of.len() && all_safe(walk.checks, n as int) {
            assert(none_improper(walk.checks, n as int));
            lemma_fields_walked(tcx, mode, ty, def, of, here, walk, n as int);
            lemma_field_not_checkable(tcx, mode, of[n as int], met_after(here, walk.checks));
        }
    }
}

/// In a definition, and nowhere else, a pointer to a sized type is safe whatever
/// it points to. A raw pointer to `()` is safe in either mode. Any other pointer is
/// judged as what it points to, as that is judged where the pointer is already
/// met.
pub proof fn lemma_pointers(
    tcx: TyCtxt,
    mode: CItemKind,
    ty: Ty,
    seen: Set<Ty>,
    pointee: Ty,
    raw: bool,
)
    requires
        fresh(tcx, ty, seen),
        if raw {
            tcx.kind_of(ty) matches TyKind::RawPtr(pointer) && pointer.ty == pointee
        } else {
            tcx.kind_of(ty) matches TyKind::Ref(pointer) && pointer.ty == pointee
        },
    ensures
        ({
            let after = check_type(tcx, mode, ty, seen);
            let transparent_to_callers = mode == CItemKind::Definition && tcx.data_of(
                pointee,
            ).is_sized;
            let void = raw && is_unit_kind(tcx.kind_of(pointee));
            &&& !tcx.described(pointee) ==> fails_with(after, CheckError::Undescribed(pointee))
            &&& tcx.described(pointee) && (transparent_to_callers || void) ==> ends_with(
                after,
                ty,
                seen,
                FfiResult::FfiSafe,
            )
            &&& tcx.described(pointee) && !transparent_to_callers && !void ==> after
                == check_type(tcx, mode, pointee, seen.insert(ty))
        }),
{
}

/// Whether a kind is that of the tuple of no types.
pub open spec fn is_unit_kind(kind: TyKind) -> bool {
    kind matches TyKind::Tuple(tys) && tys@.len() == 0
}

/// An array is judged as its elements are, where the array is already met.
pub proof fn lemma_arrays(tcx: TyCtxt, mode: CItemKind, ty: Ty, seen: Set<Ty>, inner: Ty)
    requires
        fresh(tcx, ty, seen),
        tcx.kind_of(ty) == TyKind::Array(inner),
    ensures
        check_type(tcx, mode, ty, seen) == check_type(tcx, mode, inner, seen.insert(ty)),
{
}

/// A pointer to a function that only Rust code can call is improper, in either
/// mode.
pub proof fn lemma_rust_fn_pointers(
    tcx: TyCtxt,
    mode: CItemKind,
    ty: Ty,
    seen: Set<Ty>,
    sig: FnSig,
)
    requires
        fresh(tcx, ty, seen),
        tcx.kind_of(ty) == TyKind::FnPtr(sig),
        sig.abi != AbiKind::Foreign,
    ensures
        ends_with(
            check_type(tcx, mode, ty, seen),
            ty,
            seen,
            FfiResult::FfiUnsafe { ty, reason: Reason::FnPtr },
        ),
{
}

/// Whether the `j`th of some checks is that of the `j`th type, with the types met
/// that were met before.
pub open spec fn is_type_step(
    tcx: TyCtxt,
    mode: CItemKind,
    tys: Seq<Ty>,
    met: Set<Ty>,
    checks: Seq<Checked>,
    j: int,
) -> bool {
    checks[j] == check_type(tcx, mode, tys[j], met_before(met, checks, j))
}

/// Whether some checks are those of the first types, in order.
pub open spec fn are_checks(
    tcx: TyCtxt,
    mode: CItemKind,
    tys: Seq<Ty>,
    met: Set<Ty>,
    checks: Seq<Checked>,
) -> bool {
    &&& checks.len() <= tys.len()
    &&& forall|j: int|
        0 <= j < checks.len() ==> #[trigger] is_type_step(tcx, mode, tys, met, checks, j)
}

proof fn lemma_all_walked(
    tcx: TyCtxt,
    mode: CItemKind,
    tys: Seq<Ty>,
    met: Set<Ty>,
    checks: Seq<Checked>,
    n: int,
)
    requires
        are_checks(tcx, mode, tys, met, checks),
        0 <= n <= checks.len(),
        all_safe(checks, n),
    ensures
        check_all(tcx, mode, tys, 0, met) == check_all(
            tcx,
            mode,
            tys,
            n,
            met_before(met, checks, n),
        ),
    decreases n,
{
    if n > 0 {
        lemma_all_walked(tcx, mode, tys, met, checks, n - 1);
        let here = met_before(met, checks, n - 1);
        assert(is_type_step(tcx, mode, tys, met, checks, n - 1));
        assert(is_safe(checks[n - 1]));
        lemma_check_type_keeps_seen(tcx, mode, tys[n - 1], here);
        assert(here.union(checks[n - 1].seen) =~= checks[n - 1].seen);
    }
}

/// A pointer to a function that foreign code can call is judged by the output of
/// the function, unless that is `()`, and then by its inputs, in order. The first
/// that is not safe decides; if all are, the pointer is.
pub proof fn lemma_foreign_fn_pointers(
    tcx: TyCtxt,
    mode: CItemKind,
    ty: Ty,
    seen: Set<Ty>,
    sig: FnSig,
    tys: Seq<Ty>,
    checks: Seq<Checked>,
)
    requires
        fresh(tcx, ty, seen),
        tcx.kind_of(ty) == TyKind::FnPtr(sig),
        sig.abi == AbiKind::Foreign,
        tcx.described(sig.output),
        is_unit_kind(tcx.kind_of(sig.output)) ==> tys == sig.inputs@,
        !is_unit_kind(tcx.kind_of(sig.output)) ==> tys == seq![sig.output] + sig.inputs@,
        are_checks(tcx, mode, tys, seen.insert(ty), checks),
        all_safe(checks, checks.len() - 1),
    ensures
        ({
            let after = check_type(tcx, mode, ty, seen);
            let n = checks.len();
            &&& n > 0 && !is_safe(checks[n - 1]) ==> after == checks[n - 1]
            &&& n == tys.len() && all_safe(checks, n as int) ==> is_safe(after) && after.seen
                == met_after(seen.insert(ty), checks)
        }),
{
    let n = checks.len();
    let met = seen.insert(ty);
    if n > 0 {
        lemma_all_walked(tcx, mode, tys, met, checks, n - 1);
        assert(is_type_step(tcx, mode, tys, met, checks, n - 1));
    }
    if all_safe(checks, n as int) {
        lemma_all_walked(tcx, mode, tys, met, checks, n as int);
    }
}

/// The output of the function that is pointed to is asked for.
pub proof fn lemma_fn_pointer_output_asked_for(
    tcx: TyCtxt,
    mode: CItemKind,
    ty: Ty,
    seen: Set<Ty>,
    sig: FnSig,
)
    requires
        fresh(tcx, ty, seen),
        tcx.kind_of(ty) == TyKind::FnPtr(sig),
        sig.abi == AbiKind::Foreign,
        !tcx.described(sig.output),
    ensures
        fails_with(check_type(tcx, mode, ty, seen), CheckError::Undescribed(sig.output)),
{
}

} // verus!
