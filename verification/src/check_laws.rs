//! What a verdict means.
//!
//! A verdict that something is improper names a type that the checked type is
//! made of and that is improper by itself. A verdict that all is well covers
//! every type that the checked type is made of, but for those that stand behind
//! phantom data in the signature of a function pointer or among the variants of
//! a transparent enum: the check ends there at the phantom data.

use vstd::prelude::*;

use crate::check::{
    check_all, check_field, check_fields, check_type, check_variant, check_variants, field_type,
    lemma_check_type_keeps_seen, rule_of, FfiResult, Rule,
};
use crate::error::{CheckError, Reason};
use crate::nullable::{first_non_zst, spec_repr_nullable_ptr, CItemKind};
use crate::pending::{lemma_pending_insert, lemma_pending_union, pending};
use crate::ty::{AdtDef, FieldDef, Ty, TyCtxt, VariantDef};

verus! {

/// Whether the check of a variant goes on to the type `next`.
pub open spec fn variant_leads_to(
    tcx: TyCtxt,
    def: AdtDef,
    variant: VariantDef,
    next: Ty,
) -> bool {
    if def.repr.transparent {
        first_non_zst(variant.fields@) matches Some(field) && field_type(tcx, field) == Ok::<
            Ty,
            CheckError,
        >(next)
    } else {
        exists|j: int|
            0 <= j < variant.fields@.len() && field_type(tcx, #[trigger] variant.fields@[j]) == Ok::<
                Ty,
                CheckError,
            >(next)
    }
}

/// Whether the check of the type `ty` goes on to the type `next`.
pub open spec fn leads_to(tcx: TyCtxt, mode: CItemKind, ty: Ty, next: Ty) -> bool {
    tcx.described(ty) && match rule_of(tcx, mode, ty) {
        Rule::Verdict(_) => false,
        Rule::Fails(_) => false,
        Rule::Like(inner) => next == inner,
        Rule::All(tys) => tys.contains(next),
        Rule::Struct(def, variant) => variant_leads_to(tcx, def, variant, next),
        Rule::Enum(def) => exists|i: int|
            0 <= i < def.variants@.len() && variant_leads_to(
                tcx,
                def,
                #[trigger] def.variants@[i],
                next,
            ),
    }
}

/// Whether the types in `path` lead from `ty` to `last`.
pub open spec fn is_path(
    tcx: TyCtxt,
    mode: CItemKind,
    path: Seq<Ty>,
    ty: Ty,
    last: Ty,
) -> bool {
    &&& path.len() > 0
    &&& path[0] == ty
    &&& path[path.len() - 1] == last
    &&& forall|i: int| 0 <= i < path.len() - 1 ==> #[trigger] leads_on(tcx, mode, path, i)
}

/// Whether the `i`th type in `path` leads to the next one.
pub open spec fn leads_on(tcx: TyCtxt, mode: CItemKind, path: Seq<Ty>, i: int) -> bool {
    leads_to(tcx, mode, path[i], path[i + 1])
}

/// Whether the type `ty` is made of the type `part`, among others.
pub open spec fn reaches(tcx: TyCtxt, mode: CItemKind, ty: Ty, part: Ty) -> bool {
    exists|path: Seq<Ty>| is_path(tcx, mode, path, ty, part)
}

/// Whether the type `ty` is judged to be phantom data, after some set of types
/// met before.
pub open spec fn can_be_phantom(tcx: TyCtxt, mode: CItemKind, ty: Ty) -> bool {
    exists|seen: Set<Ty>|
        (#[trigger] check_type(tcx, mode, ty, seen)).result matches Ok(FfiResult::FfiPhantom(_))
}

/// Whether a field of the variant can be phantom data.
pub open spec fn has_phantom_field(tcx: TyCtxt, mode: CItemKind, variant: VariantDef) -> bool {
    exists|j: int|
        0 <= j < variant.fields@.len() && phantom_field(
            tcx,
            mode,
            #[trigger] variant.fields@[j],
        )
}

/// Whether a field can be phantom data.
pub open spec fn phantom_field(tcx: TyCtxt, mode: CItemKind, field: FieldDef) -> bool {
    field_type(tcx, field) matches Ok(field_ty) && can_be_phantom(tcx, mode, field_ty)
}

/// Whether the type `ty` is improper by itself, for the given reason.
pub open spec fn improper_because(tcx: TyCtxt, mode: CItemKind, ty: Ty, reason: Reason) -> bool {
    tcx.described(ty) && match rule_of(tcx, mode, ty) {
        Rule::Verdict(verdict) => verdict == (FfiResult::FfiUnsafe { ty, reason }),
        Rule::Struct(def, variant) => {
            &&& reason == Reason::StructZeroSized
            &&& def.repr.transparent
            &&& first_non_zst(variant.fields@) is None
        },
        Rule::Enum(def) => exists|i: int|
            0 <= i < def.variants@.len() && improper_variant(
                tcx,
                mode,
                def,
                #[trigger] def.variants@[i],
                reason,
            ),
        _ => false,
    }
}

/// Whether a variant makes its enum improper, for the given reason.
pub open spec fn improper_variant(
    tcx: TyCtxt,
    mode: CItemKind,
    def: AdtDef,
    variant: VariantDef,
    reason: Reason,
) -> bool {
    match reason {
        Reason::EnumNonExhaustiveVariant => variant.is_field_list_non_exhaustive
            && !variant.is_local,
        Reason::StructZeroSized => def.repr.transparent && first_non_zst(
            variant.fields@,
        ) is None,
        Reason::EnumPhantomData => !def.repr.transparent && has_phantom_field(tcx, mode, variant),
        _ => false,
    }
}

/// Whether the type `ty` is phantom data, or a struct or a union of nothing but
/// phantom data.
pub open spec fn phantom_because(tcx: TyCtxt, mode: CItemKind, ty: Ty) -> bool {
    tcx.described(ty) && match rule_of(tcx, mode, ty) {
        Rule::Verdict(verdict) => verdict == FfiResult::FfiPhantom(ty),
        Rule::Struct(def, variant) => {
            &&& !def.repr.transparent
            &&& variant.fields@.len() > 0
            &&& forall|j: int|
                0 <= j < variant.fields@.len() ==> phantom_field(
                    tcx,
                    mode,
                    #[trigger] variant.fields@[j],
                )
        },
        _ => false,
    }
}

/// Whether a verdict on the type `ty` names a type that `ty` is made of, and
/// rightly.
pub open spec fn justified(
    tcx: TyCtxt,
    mode: CItemKind,
    ty: Ty,
    result: Result<FfiResult, CheckError>,
) -> bool {
    match result {
        Ok(FfiResult::FfiUnsafe { ty: culprit, reason }) => reaches(tcx, mode, ty, culprit)
            && improper_because(tcx, mode, culprit, reason),
        Ok(FfiResult::FfiPhantom(phantom)) => reaches(tcx, mode, ty, phantom) && phantom_because(
            tcx,
            mode,
            phantom,
        ),
        _ => true,
    }
}

/// A type is made of itself.
proof fn lemma_reaches_self(tcx: TyCtxt, mode: CItemKind, ty: Ty)
    ensures
        reaches(tcx, mode, ty, ty),
{
    assert(is_path(tcx, mode, seq![ty], ty, ty));
}

/// A type is made of what the types that it leads to are made of.
proof fn lemma_reaches_step(tcx: TyCtxt, mode: CItemKind, ty: Ty, next: Ty, part: Ty)
    requires
        leads_to(tcx, mode, ty, next),
        reaches(tcx, mode, next, part),
    ensures
        reaches(tcx, mode, ty, part),
{
    let tail = choose|path: Seq<Ty>| is_path(tcx, mode, path, next, part);
    let path = seq![ty] + tail;
    assert forall|i: int| 0 <= i < path.len() - 1 implies #[trigger] leads_on(
        tcx,
        mode,
        path,
        i,
    ) by {
        if i > 0 {
            assert(leads_on(tcx, mode, tail, i - 1));
        }
    }
    assert(is_path(tcx, mode, path, ty, part));
}

/// What holds of the verdict on a type holds of it as a verdict on a type that
/// leads there.
proof fn lemma_justified_step(
    tcx: TyCtxt,
    mode: CItemKind,
    ty: Ty,
    next: Ty,
    result: Result<FfiResult, CheckError>,
)
    requires
        leads_to(tcx, mode, ty, next),
        justified(tcx, mode, next, result),
    ensures
        justified(tcx, mode, ty, result),
{
    match result {
        Ok(FfiResult::FfiUnsafe { ty: culprit, .. }) => lemma_reaches_step(
            tcx,
            mode,
            ty,
            next,
            culprit,
        ),
        Ok(FfiResult::FfiPhantom(phantom)) => lemma_reaches_step(tcx, mode, ty, next, phantom),
        _ => {},
    }
}

/// A verdict that is not "safe" names a type that the checked type is made of:
/// one that is improper by itself for the given reason, or one that is nothing
/// but phantom data.
pub proof fn lemma_verdict_justified(tcx: TyCtxt, mode: CItemKind, ty: Ty, seen: Set<Ty>)
    ensures
        justified(tcx, mode, ty, check_type(tcx, mode, ty, seen).result),
    decreases pending(tcx.len(), seen), 0nat, 0nat,
{
    if !seen.contains(ty) && tcx.described(ty) {
        lemma_pending_insert(tcx.len(), seen, ty);
        lemma_reaches_self(tcx, mode, ty);
        let met = seen.insert(ty);
        match rule_of(tcx, mode, ty) {
            Rule::Verdict(_) => {},
            Rule::Fails(_) => {},
            Rule::Like(inner) => {
                lemma_verdict_justified(tcx, mode, inner, met);
                lemma_justified_step(
                    tcx,
                    mode,
                    ty,
                    inner,
                    check_type(tcx, mode, inner, met).result,
                );
            },
            Rule::All(tys) => {
                lemma_all_justified(tcx, mode, ty, tys, 0, met);
            },
            Rule::Struct(def, variant) => {
                lemma_variant_justified(tcx, mode, ty, def, variant, met);
            },
            Rule::Enum(def) => {
                lemma_variants_justified(tcx, mode, ty, def, 0, met);
            },
        }
    }
}

proof fn lemma_all_justified(
    tcx: TyCtxt,
    mode: CItemKind,
    ty: Ty,
    tys: Seq<Ty>,
    i: int,
    seen: Set<Ty>,
)
    requires
        0 <= i,
        tcx.described(ty),
        rule_of(tcx, mode, ty) == Rule::All(tys),
    ensures
        justified(tcx, mode, ty, check_all(tcx, mode, tys, i, seen).result),
    decreases pending(tcx.len(), seen), 1nat, tys.len() - i,
{
    if i < tys.len() {
        let checked = check_type(tcx, mode, tys[i], seen);
        lemma_verdict_justified(tcx, mode, tys[i], seen);
        assert(tys.contains(tys[i]));
        lemma_justified_step(tcx, mode, ty, tys[i], checked.result);
        lemma_pending_union(tcx.len(), seen, checked.seen);
        lemma_all_justified(tcx, mode, ty, tys, i + 1, seen.union(checked.seen));
    }
}

/// The verdict on a field is justified as one on the type of the field.
proof fn lemma_field_justified(
    tcx: TyCtxt,
    mode: CItemKind,
    ty: Ty,
    field: FieldDef,
    seen: Set<Ty>,
)
    requires
        field_type(tcx, field) matches Ok(field_ty) ==> leads_to(tcx, mode, ty, field_ty),
    ensures
        justified(tcx, mode, ty, check_field(tcx, mode, field, seen).result),
        check_field(tcx, mode, field, seen).result matches Ok(FfiResult::FfiPhantom(_))
            ==> phantom_field(tcx, mode, field),
    decreases pending(tcx.len(), seen), 1nat, 0nat,
{
    match field_type(tcx, field) {
        Ok(field_ty) => {
            lemma_verdict_justified(tcx, mode, field_ty, seen);
            lemma_justified_step(
                tcx,
                mode,
                ty,
                field_ty,
                check_type(tcx, mode, field_ty, seen).result,
            );
        },
        Err(_) => {},
    }
}

/// Whether the definition of the type `ty` is one that a variant is checked
/// for.
pub open spec fn variant_of(
    tcx: TyCtxt,
    mode: CItemKind,
    ty: Ty,
    def: AdtDef,
    variant: VariantDef,
) -> bool {
    tcx.described(ty) && match rule_of(tcx, mode, ty) {
        Rule::Struct(d, v) => d == def && v == variant && def.kind !is Enum,
        Rule::Enum(d) => d == def && def.kind is Enum && def.variants@.contains(variant),
        _ => false,
    }
}

proof fn lemma_fields_justified(
    tcx: TyCtxt,
    mode: CItemKind,
    ty: Ty,
    def: AdtDef,
    variant: VariantDef,
    i: int,
    all_phantom: bool,
    seen: Set<Ty>,
)
    requires
        variant_of(tcx, mode, ty, def, variant),
        !def.repr.transparent,
        0 <= i <= variant.fields@.len(),
        all_phantom ==> variant.fields@.len() > 0,
        all_phantom ==> forall|j: int|
            0 <= j < i ==> phantom_field(tcx, mode, #[trigger] variant.fields@[j]),
        all_phantom && i == variant.fields@.len() ==> def.kind !is Enum,
    ensures
        justified(
            tcx,
            mode,
            ty,
            check_fields(tcx, mode, ty, def, variant.fields@, i, all_phantom, seen).result,
        ),
    decreases pending(tcx.len(), seen), 2nat, variant.fields@.len() - i,
{
    lemma_reaches_self(tcx, mode, ty);
    let fields = variant.fields@;
    if i < fields.len() {
        let checked = check_field(tcx, mode, fields[i], seen);
        let met = seen.union(checked.seen);
        lemma_pending_union(tcx.len(), seen, checked.seen);
        if def.kind is Enum {
            let k = choose|k: int| 0 <= k < def.variants@.len() && def.variants@[k] == variant;
            assert(def.variants@[k] == variant);
        }
        assert(field_type(tcx, fields[i]) matches Ok(field_ty) ==> variant_leads_to(
            tcx,
            def,
            variant,
            field_ty,
        ));
        lemma_field_justified(tcx, mode, ty, fields[i], seen);
        match checked.result {
            Ok(FfiResult::FfiSafe) => {
                lemma_fields_justified(tcx, mode, ty, def, variant, i + 1, false, met);
            },
            Ok(FfiResult::FfiPhantom(_)) => {
                assert(phantom_field(tcx, mode, fields[i]));
                if def.kind is Enum {
                    assert(has_phantom_field(tcx, mode, variant));
                    assert(improper_variant(tcx, mode, def, variant, Reason::EnumPhantomData));
                } else {
                    lemma_fields_justified(tcx, mode, ty, def, variant, i + 1, all_phantom, met);
                }
            },
            _ => {},
        }
    }
}

proof fn lemma_variant_justified(
    tcx: TyCtxt,
    mode: CItemKind,
    ty: Ty,
    def: AdtDef,
    variant: VariantDef,
    seen: Set<Ty>,
)
    requires
        variant_of(tcx, mode, ty, def, variant),
    ensures
        justified(tcx, mode, ty, check_variant(tcx, mode, ty, def, variant, seen).result),
    decreases pending(tcx.len(), seen), 3nat, 0nat,
{
    lemma_reaches_self(tcx, mode, ty);
    if def.kind is Enum {
        let k = choose|k: int| 0 <= k < def.variants@.len() && def.variants@[k] == variant;
        assert(def.variants@[k] == variant);
    }
    if def.repr.transparent {
        match first_non_zst(variant.fields@) {
            Some(field) => {
                assert(field_type(tcx, field) matches Ok(field_ty) ==> variant_leads_to(
                    tcx,
                    def,
                    variant,
                    field_ty,
                ));
                lemma_field_justified(tcx, mode, ty, field, seen);
            },
            None => {
                assert(def.kind is Enum ==> improper_variant(
                    tcx,
                    mode,
                    def,
                    variant,
                    Reason::StructZeroSized,
                ));
            },
        }
    } else {
        lemma_fields_justified(
            tcx,
            mode,
            ty,
            def,
            variant,
            0,
            variant.fields@.len() > 0,
            seen,
        );
    }
}

proof fn lemma_variants_justified(
    tcx: TyCtxt,
    mode: CItemKind,
    ty: Ty,
    def: AdtDef,
    i: int,
    seen: Set<Ty>,
)
    requires
        0 <= i,
        tcx.described(ty),
        rule_of(tcx, mode, ty) == Rule::Enum(def),
    ensures
        justified(tcx, mode, ty, check_variants(tcx, mode, ty, def, i, seen).result),
    decreases pending(tcx.len(), seen), 4nat, def.variants@.len() - i,
{
    if i < def.variants@.len() {
        lemma_reaches_self(tcx, mode, ty);
        let variant = def.variants@[i];
        if variant.is_field_list_non_exhaustive && !variant.is_local {
            assert(improper_variant(tcx, mode, def, variant, Reason::EnumNonExhaustiveVariant));
        } else {
            let checked = check_variant(tcx, mode, ty, def, variant, seen);
            assert(def.variants@.contains(variant));
            lemma_variant_justified(tcx, mode, ty, def, variant, seen);
            lemma_pending_union(tcx.len(), seen, checked.seen);
            lemma_variants_justified(tcx, mode, ty, def, i + 1, seen.union(checked.seen));
        }
    }
}

/// Whether a variant is acceptable by itself.
pub open spec fn acceptable_variant(tcx: TyCtxt, def: AdtDef, variant: VariantDef) -> bool {
    if def.repr.transparent {
        first_non_zst(variant.fields@) matches Some(field) && field_type(tcx, field) is Ok
    } else {
        forall|j: int|
            0 <= j < variant.fields@.len() ==> field_type(
                tcx,
                #[trigger] variant.fields@[j],
            ) is Ok
    }
}

/// Whether a variant of an enum is acceptable by itself.
pub open spec fn acceptable_enum_variant(tcx: TyCtxt, def: AdtDef, variant: VariantDef) -> bool {
    &&& !(variant.is_field_list_non_exhaustive && !variant.is_local)
    &&& acceptable_variant(tcx, def, variant)
}

/// Whether none of the types from the place `from` up to the place `to` can be
/// phantom data.
pub open spec fn no_phantom_among(
    tcx: TyCtxt,
    mode: CItemKind,
    tys: Seq<Ty>,
    from: int,
    to: int,
) -> bool {
    forall|k: int| from <= k < to ==> !can_be_phantom(tcx, mode, #[trigger] tys[k])
}

/// Whether a transparent variant wraps a field that can be phantom data.
pub open spec fn wraps_phantom(tcx: TyCtxt, mode: CItemKind, variant: VariantDef) -> bool {
    first_non_zst(variant.fields@) matches Some(field) && phantom_field(tcx, mode, field)
}

/// Whether the check of an enum gets from the variant `from` to the variant `to`
/// unless it finds something improper: if the enum is transparent, none of the
/// variants in between wraps phantom data.
pub open spec fn gets_to_variant(
    tcx: TyCtxt,
    mode: CItemKind,
    def: AdtDef,
    from: int,
    to: int,
) -> bool {
    def.repr.transparent ==> forall|k: int|
        from <= k < to ==> !wraps_phantom(tcx, mode, #[trigger] def.variants@[k])
}

/// Whether the type `ty` is acceptable by itself, whatever the types are like
/// that it leads to. Of an enum, this speaks of the variants that its check gets
/// to.
pub open spec fn acceptable(tcx: TyCtxt, mode: CItemKind, ty: Ty) -> bool {
    tcx.described(ty) && match rule_of(tcx, mode, ty) {
        Rule::Verdict(verdict) => verdict !is FfiUnsafe,
        Rule::Fails(_) => false,
        Rule::Like(_) => true,
        Rule::All(_) => true,
        Rule::Struct(def, variant) => acceptable_variant(tcx, def, variant),
        Rule::Enum(def) => forall|i: int|
            0 <= i < def.variants@.len() && gets_to_variant(tcx, mode, def, 0, i)
                ==> acceptable_enum_variant(tcx, def, #[trigger] def.variants@[i]),
    }
}

/// Whether the check of the type `ty` goes on to the type `next` unless it finds
/// something improper: no phantom data stands before it.
pub open spec fn surely_leads_to(tcx: TyCtxt, mode: CItemKind, ty: Ty, next: Ty) -> bool {
    tcx.described(ty) && match rule_of(tcx, mode, ty) {
        Rule::Verdict(_) => false,
        Rule::Fails(_) => false,
        Rule::Like(inner) => next == inner,
        Rule::All(tys) => exists|j: int|
            0 <= j < tys.len() && #[trigger] tys[j] == next && no_phantom_among(
                tcx,
                mode,
                tys,
                0,
                j,
            ),
        Rule::Struct(def, variant) => variant_leads_to(tcx, def, variant, next),
        Rule::Enum(def) => exists|i: int|
            0 <= i < def.variants@.len() && gets_to_variant(tcx, mode, def, 0, i)
                && variant_leads_to(tcx, def, #[trigger] def.variants@[i], next),
    }
}

/// Whether the type `ty` has been dealt with once the types in `seen` are met:
/// it is acceptable by itself and surely leads to none but those.
pub open spec fn dealt_with(tcx: TyCtxt, mode: CItemKind, ty: Ty, seen: Set<Ty>) -> bool {
    &&& acceptable(tcx, mode, ty)
    &&& forall|next: Ty| #[trigger] surely_leads_to(tcx, mode, ty, next) ==> seen.contains(next)
}

/// Whether a check found nothing improper.
pub open spec fn passed(result: Result<FfiResult, CheckError>) -> bool {
    result matches Ok(verdict) && verdict !is FfiUnsafe
}

/// Whether all types met between `seen` and `met` have been dealt with.
pub open spec fn all_dealt_with(
    tcx: TyCtxt,
    mode: CItemKind,
    seen: Set<Ty>,
    met: Set<Ty>,
) -> bool {
    forall|ty: Ty|
        #![trigger met.contains(ty)]
        met.contains(ty) && !seen.contains(ty) ==> dealt_with(tcx, mode, ty, met)
}

/// Types dealt with in one part of a check and in the next have been dealt with
/// in both together.
proof fn lemma_all_dealt_with(
    tcx: TyCtxt,
    mode: CItemKind,
    seen: Set<Ty>,
    between: Set<Ty>,
    met: Set<Ty>,
)
    requires
        between.subset_of(met),
        all_dealt_with(tcx, mode, seen, between),
        all_dealt_with(tcx, mode, between, met),
    ensures
        all_dealt_with(tcx, mode, seen, met),
{
    assert forall|ty: Ty|
        #![trigger met.contains(ty)]
        met.contains(ty) && !seen.contains(ty) implies dealt_with(tcx, mode, ty, met) by {
        if between.contains(ty) {
            assert(dealt_with(tcx, mode, ty, between));
        }
    }
}

/// A check that finds nothing improper has dealt with every type that it met.
pub proof fn lemma_check_covers(tcx: TyCtxt, mode: CItemKind, ty: Ty, seen: Set<Ty>)
    requires
        passed(check_type(tcx, mode, ty, seen).result),
    ensures
        all_dealt_with(tcx, mode, seen, check_type(tcx, mode, ty, seen).seen),
    decreases pending(tcx.len(), seen), 0nat, 0nat,
{
    if !seen.contains(ty) {
        lemma_pending_insert(tcx.len(), seen, ty);
        let met = seen.insert(ty);
        let after = check_type(tcx, mode, ty, seen).seen;
        match rule_of(tcx, mode, ty) {
            Rule::Verdict(_) => {},
            Rule::Fails(_) => {},
            Rule::Like(inner) => {
                lemma_check_covers(tcx, mode, inner, met);
                lemma_check_type_keeps_seen(tcx, mode, inner, met);
            },
            Rule::All(tys) => {
                lemma_all_covers(tcx, mode, tys, 0, met);
            },
            Rule::Struct(def, variant) => {
                lemma_variant_covers(tcx, mode, ty, def, variant, met);
            },
            Rule::Enum(def) => {
                lemma_variants_covers(tcx, mode, ty, def, 0, met);
            },
        }
        assert(dealt_with(tcx, mode, ty, after));
    }
}

proof fn lemma_all_covers(
    tcx: TyCtxt,
    mode: CItemKind,
    tys: Seq<Ty>,
    i: int,
    seen: Set<Ty>,
)
    requires
        0 <= i,
        passed(check_all(tcx, mode, tys, i, seen).result),
    ensures
        all_dealt_with(tcx, mode, seen, check_all(tcx, mode, tys, i, seen).seen),
        seen.subset_of(check_all(tcx, mode, tys, i, seen).seen),
        forall|j: int|
            i <= j < tys.len() && no_phantom_among(tcx, mode, tys, i, j) ==> check_all(
                tcx,
                mode,
                tys,
                i,
                seen,
            ).seen.contains(#[trigger] tys[j]),
    decreases pending(tcx.len(), seen), 1nat, tys.len() - i,
{
    if i < tys.len() {
        let checked = check_type(tcx, mode, tys[i], seen);
        lemma_check_covers(tcx, mode, tys[i], seen);
        lemma_check_type_keeps_seen(tcx, mode, tys[i], seen);
        assert(seen.union(checked.seen) =~= checked.seen);
        lemma_pending_union(tcx.len(), seen, checked.seen);
        if checked.result == Ok::<FfiResult, CheckError>(FfiResult::FfiSafe) {
            lemma_all_covers(tcx, mode, tys, i + 1, checked.seen);
            lemma_all_dealt_with(
                tcx,
                mode,
                seen,
                checked.seen,
                check_all(tcx, mode, tys, i, seen).seen,
            );
            assert forall|j: int|
                i <= j < tys.len() && no_phantom_among(tcx, mode, tys, i, j) implies check_all(
                tcx,
                mode,
                tys,
                i,
                seen,
            ).seen.contains(#[trigger] tys[j]) by {
                assert(no_phantom_among(tcx, mode, tys, i + 1, j));
            }
        } else {
            assert(can_be_phantom(tcx, mode, tys[i]));
        }
    }
}

proof fn lemma_field_covers(tcx: TyCtxt, mode: CItemKind, field: FieldDef, seen: Set<Ty>)
    requires
        passed(check_field(tcx, mode, field, seen).result),
    ensures
        all_dealt_with(tcx, mode, seen, check_field(tcx, mode, field, seen).seen),
        seen.subset_of(check_field(tcx, mode, field, seen).seen),
        field_type(tcx, field) is Ok,
        check_field(tcx, mode, field, seen).seen.contains(field_type(tcx, field)->Ok_0),
        check_field(tcx, mode, field, seen).result matches Ok(FfiResult::FfiPhantom(_))
            ==> can_be_phantom(tcx, mode, field_type(tcx, field)->Ok_0),
    decreases pending(tcx.len(), seen), 1nat, 0nat,
{
    let field_ty = field_type(tcx, field)->Ok_0;
    lemma_check_covers(tcx, mode, field_ty, seen);
    lemma_check_type_keeps_seen(tcx, mode, field_ty, seen);
}

proof fn lemma_fields_covers(
    tcx: TyCtxt,
    mode: CItemKind,
    ty: Ty,
    def: AdtDef,
    fields: Seq<FieldDef>,
    i: int,
    all_phantom: bool,
    seen: Set<Ty>,
)
    requires
        0 <= i,
        passed(check_fields(tcx, mode, ty, def, fields, i, all_phantom, seen).result),
    ensures
        ({
            let after = check_fields(tcx, mode, ty, def, fields, i, all_phantom, seen);
            &&& all_dealt_with(tcx, mode, seen, after.seen)
            &&& seen.subset_of(after.seen)
            &&& forall|j: int|
                i <= j < fields.len() ==> field_type(tcx, #[trigger] fields[j]) is Ok
                    && after.seen.contains(field_type(tcx, fields[j])->Ok_0)
            &&& def.kind is Enum && !all_phantom ==> after.result == Ok::<FfiResult, CheckError>(
                FfiResult::FfiSafe,
            )
            &&& def.kind is Enum && i < fields.len() ==> after.result == Ok::<
                FfiResult,
                CheckError,
            >(FfiResult::FfiSafe)
        }),
    decreases pending(tcx.len(), seen), 2nat, fields.len() - i,
{
    if i < fields.len() {
        let checked = check_field(tcx, mode, fields[i], seen);
        lemma_field_covers(tcx, mode, fields[i], seen);
        assert(seen.union(checked.seen) =~= checked.seen);
        lemma_pending_union(tcx.len(), seen, checked.seen);
        let phantom = if checked.result == Ok::<FfiResult, CheckError>(FfiResult::FfiSafe) {
            false
        } else {
            all_phantom
        };
        lemma_fields_covers(tcx, mode, ty, def, fields, i + 1, phantom, checked.seen);
        lemma_all_dealt_with(
            tcx,
            mode,
            seen,
            checked.seen,
            check_fields(tcx, mode, ty, def, fields, i, all_phantom, seen).seen,
        );
    }
}

proof fn lemma_variant_covers(
    tcx: TyCtxt,
    mode: CItemKind,
    ty: Ty,
    def: AdtDef,
    variant: VariantDef,
    seen: Set<Ty>,
)
    requires
        variant_of(tcx, mode, ty, def, variant),
        passed(check_variant(tcx, mode, ty, def, variant, seen).result),
    ensures
        ({
            let after = check_variant(tcx, mode, ty, def, variant, seen);
            &&& all_dealt_with(tcx, mode, seen, after.seen)
            &&& seen.subset_of(after.seen)
            &&& acceptable_variant(tcx, def, variant)
            &&& forall|next: Ty| #[trigger]
                variant_leads_to(tcx, def, variant, next) ==> after.seen.contains(next)
            &&& def.kind is Enum && after.result != Ok::<FfiResult, CheckError>(FfiResult::FfiSafe)
                ==> def.repr.transparent && wraps_phantom(tcx, mode, variant)
        }),
    decreases pending(tcx.len(), seen), 3nat, 0nat,
{
    if def.repr.transparent {
        let field = first_non_zst(variant.fields@)->0;
        lemma_field_covers(tcx, mode, field, seen);
        let field_ty = field_type(tcx, field)->Ok_0;
        assert(variant_leads_to(tcx, def, variant, field_ty));
    } else {
        lemma_fields_covers(
            tcx,
            mode,
            ty,
            def,
            variant.fields@,
            0,
            variant.fields@.len() > 0,
            seen,
        );
    }
}

proof fn lemma_variants_covers(
    tcx: TyCtxt,
    mode: CItemKind,
    ty: Ty,
    def: AdtDef,
    i: int,
    seen: Set<Ty>,
)
    requires
        0 <= i,
        tcx.described(ty),
        rule_of(tcx, mode, ty) == Rule::Enum(def),
        passed(check_variants(tcx, mode, ty, def, i, seen).result),
    ensures
        ({
            let after = check_variants(tcx, mode, ty, def, i, seen);
            &&& all_dealt_with(tcx, mode, seen, after.seen)
            &&& seen.subset_of(after.seen)
            &&& forall|j: int, next: Ty|
                #![trigger variant_leads_to(tcx, def, def.variants@[j], next)]
                i <= j < def.variants@.len() && gets_to_variant(tcx, mode, def, i, j)
                    && variant_leads_to(tcx, def, def.variants@[j], next) ==> after.seen.contains(
                    next,
                )
            &&& forall|j: int|
                i <= j < def.variants@.len() && gets_to_variant(tcx, mode, def, i, j)
                    ==> acceptable_enum_variant(tcx, def, #[trigger] def.variants@[j])
        }),
    decreases pending(tcx.len(), seen), 4nat, def.variants@.len() - i,
{
    if i < def.variants@.len() {
        let variant = def.variants@[i];
        assert(def.variants@.contains(variant));
        let checked = check_variant(tcx, mode, ty, def, variant, seen);
        lemma_variant_covers(tcx, mode, ty, def, variant, seen);
        assert(seen.union(checked.seen) =~= checked.seen);
        lemma_pending_union(tcx.len(), seen, checked.seen);
        if checked.result == Ok::<FfiResult, CheckError>(FfiResult::FfiSafe) {
            lemma_variants_covers(tcx, mode, ty, def, i + 1, checked.seen);
            lemma_all_dealt_with(
                tcx,
                mode,
                seen,
                checked.seen,
                check_variants(tcx, mode, ty, def, i, seen).seen,
            );
            assert forall|j: int| gets_to_variant(tcx, mode, def, i, j) implies gets_to_variant(
                tcx,
                mode,
                def,
                i + 1,
                j,
            ) by {}
        } else {
            assert(wraps_phantom(tcx, mode, def.variants@[i]));
        }
    }
}

/// Whether the types in `path` surely lead from `ty` to `last`.
pub open spec fn is_sure_path(
    tcx: TyCtxt,
    mode: CItemKind,
    path: Seq<Ty>,
    ty: Ty,
    last: Ty,
) -> bool {
    &&& path.len() > 0
    &&& path[0] == ty
    &&& path[path.len() - 1] == last
    &&& forall|i: int| 0 <= i < path.len() - 1 ==> #[trigger] surely_leads_on(tcx, mode, path, i)
}

/// Whether the `i`th type in `path` surely leads to the next one.
pub open spec fn surely_leads_on(tcx: TyCtxt, mode: CItemKind, path: Seq<Ty>, i: int) -> bool {
    surely_leads_to(tcx, mode, path[i], path[i + 1])
}

/// If nothing improper is found in a type, then every type that it is made of is
/// acceptable by itself, but for those that are reached only past phantom data.
pub proof fn lemma_safe_verdict_sound(
    tcx: TyCtxt,
    mode: CItemKind,
    ty: Ty,
    path: Seq<Ty>,
    part: Ty,
)
    requires
        passed(check_type(tcx, mode, ty, Set::empty()).result),
        is_sure_path(tcx, mode, path, ty, part),
    ensures
        acceptable(tcx, mode, part),
{
    let met = check_type(tcx, mode, ty, Set::empty()).seen;
    lemma_check_covers(tcx, mode, ty, Set::empty());
    lemma_check_type_keeps_seen(tcx, mode, ty, Set::empty());
    lemma_path_met(tcx, mode, path, ty, part, met, path.len() - 1);
    assert(met.contains(part));
    assert(dealt_with(tcx, mode, part, met));
}

/// A path is followed to its end.
proof fn lemma_path_met(
    tcx: TyCtxt,
    mode: CItemKind,
    path: Seq<Ty>,
    ty: Ty,
    part: Ty,
    met: Set<Ty>,
    i: int,
)
    requires
        is_sure_path(tcx, mode, path, ty, part),
        met.contains(ty),
        all_dealt_with(tcx, mode, Set::empty(), met),
        0 <= i < path.len(),
    ensures
        met.contains(path[i]),
    decreases i,
{
    if i > 0 {
        lemma_path_met(tcx, mode, path, ty, part, met, i - 1);
        assert(dealt_with(tcx, mode, path[i - 1], met));
        assert(surely_leads_on(tcx, mode, path, i - 1));
    }
}

/// Where no type can be phantom data, every type that the checked type is made of
/// is surely reached.
pub proof fn lemma_no_phantom_all_sure(tcx: TyCtxt, mode: CItemKind, ty: Ty, next: Ty)
    requires
        leads_to(tcx, mode, ty, next),
        forall|part: Ty| !(#[trigger] can_be_phantom(tcx, mode, part)),
    ensures
        surely_leads_to(tcx, mode, ty, next),
{
    if let Rule::All(tys) = rule_of(tcx, mode, ty) {
        let j = choose|j: int| 0 <= j < tys.len() && tys[j] == next;
        assert(tys[j] == next && no_phantom_among(tcx, mode, tys, 0, j));
    }
    if let Rule::Enum(def) = rule_of(tcx, mode, ty) {
        let i = choose|i: int|
            0 <= i < def.variants@.len() && variant_leads_to(
                tcx,
                def,
                #[trigger] def.variants@[i],
                next,
            );
        assert(gets_to_variant(tcx, mode, def, 0, i));
        assert(variant_leads_to(tcx, def, def.variants@[i], next));
    }
}

/// An enum that is represented as a nullable pointer is not found to be without a
/// representation.
pub proof fn lemma_nullable_enum_represented(
    tcx: TyCtxt,
    mode: CItemKind,
    ty: Ty,
    seen: Set<Ty>,
)
    requires
        spec_repr_nullable_ptr(tcx, ty, mode) matches Ok(Some(_)),
    ensures
        check_type(tcx, mode, ty, seen).result != Ok::<FfiResult, CheckError>(
            FfiResult::FfiUnsafe { ty, reason: Reason::EnumNoRepresentation },
        ),
{
    lemma_verdict_justified(tcx, mode, ty, seen);
}

/// A struct that holds a pointer to itself, and any other type met again, is not
/// checked twice: the second meeting adds nothing.
pub proof fn lemma_met_again(tcx: TyCtxt, mode: CItemKind, ty: Ty, seen: Set<Ty>)
    requires
        seen.contains(ty),
    ensures
        check_type(tcx, mode, ty, seen).result == Ok::<FfiResult, CheckError>(FfiResult::FfiSafe),
        check_type(tcx, mode, ty, seen).seen == seen,
{
}

} // verus!
