//! Only what is missing is asked for.
//!
//! A check that lacks the description of a type says so, and is asked again once
//! the type is described. These laws say that the type asked for is never one that
//! is described already, so that no more checks are needed than there are types.

use vstd::prelude::*;

use crate::check::{
    check_all, check_field, check_fields, check_type, check_variant, check_variants, field_type,
    rule_of, Rule,
};
use crate::check_laws::lemma_verdict_justified;
use crate::error::CheckError;
use crate::lint::{fn_outcome, foreign_item_outcome, FnKind, ForeignItemKind, Lint, SpecAbi};
use crate::nullable::{
    any_nonnull, first_non_zst, is_wrapper, nonnull_below, nullable_below, option_like_field,
    spec_get_nullable_type, spec_repr_nullable_ptr, spec_ty_is_known_nonnull, wrapped_types,
    CItemKind,
};
use crate::opaque::{opaque_among, opaque_below, opaque_in};
use crate::pending::{lemma_pending_insert, lemma_pending_union, pending};
use crate::report::{fn_report, input_count, inputs_report, report, FnDecl};
use crate::store::Store;
use crate::ty::{AdtDef, FieldDef, FnSig, Ty, TyCtxt, TyKind, VariantDef};

verus! {

/// Whether a result asks, if it does, for a type that is not described.
pub open spec fn asks_rightly<T>(tcx: TyCtxt, result: Result<T, CheckError>) -> bool {
    result matches Err(CheckError::Undescribed(t)) ==> !tcx.described(t)
}

/// Whether a result fails, if it does, because a type is not described or contains
/// itself.
pub open spec fn fails_for_types<T>(tcx: TyCtxt, result: Result<T, CheckError>) -> bool {
    result matches Err(e) ==> match e {
        CheckError::Undescribed(t) => !tcx.described(t),
        CheckError::InfiniteType(t) => tcx.described(t),
        _ => false,
    }
}

/// Whether a type is known to be non-null is left open only where a type is not
/// described or contains itself.
pub proof fn lemma_nonnull_asks(tcx: TyCtxt, ty: Ty, mode: CItemKind)
    ensures
        fails_for_types(tcx, spec_ty_is_known_nonnull(tcx, ty, mode)),
{
    lemma_nonnull_below_asks(tcx, ty, mode, Set::empty());
}

proof fn lemma_nonnull_below_asks(tcx: TyCtxt, ty: Ty, mode: CItemKind, path: Set<Ty>)
    ensures
        fails_for_types(tcx, nonnull_below(tcx, ty, mode, path)),
    decreases pending(tcx.len(), path), 0nat, 0nat,
{
    if tcx.described(ty) && !path.contains(ty) {
        if let TyKind::Adt(def) = tcx.kind_of(ty) {
            lemma_pending_insert(tcx.len(), path, ty);
            lemma_any_nonnull_asks(tcx, wrapped_types(def.variants@), 0, mode, path.insert(ty));
        }
    }
}

proof fn lemma_any_nonnull_asks(
    tcx: TyCtxt,
    tys: Seq<Ty>,
    i: int,
    mode: CItemKind,
    path: Set<Ty>,
)
    ensures
        fails_for_types(tcx, any_nonnull(tcx, tys, i, mode, path)),
    decreases pending(tcx.len(), path), 1nat, tys.len() - i,
{
    if 0 <= i < tys.len() {
        lemma_nonnull_below_asks(tcx, tys[i], mode, path);
        lemma_any_nonnull_asks(tcx, tys, i + 1, mode, path);
    }
}

/// The nullable version of a type is asked for rightly.
pub proof fn lemma_nullable_asks(tcx: TyCtxt, ty: Ty)
    ensures
        asks_rightly(tcx, spec_get_nullable_type(tcx, ty)),
{
    lemma_nullable_below_asks(tcx, ty, Set::empty());
}

proof fn lemma_nullable_below_asks(tcx: TyCtxt, ty: Ty, path: Set<Ty>)
    ensures
        asks_rightly(tcx, nullable_below(tcx, ty, path)),
    decreases pending(tcx.len(), path),
{
    if tcx.described(ty) && !path.contains(ty) {
        if let TyKind::Adt(def) = tcx.kind_of(ty) {
            let tys = wrapped_types(def.variants@);
            if is_wrapper(tcx, ty, def) && tys.len() == 1 {
                lemma_pending_insert(tcx.len(), path, ty);
                lemma_nullable_below_asks(tcx, tys[0], path.insert(ty));
            }
        }
    }
}

/// What an enum is represented as is asked for rightly.
pub proof fn lemma_repr_nullable_asks(tcx: TyCtxt, ty: Ty, mode: CItemKind)
    ensures
        asks_rightly(tcx, spec_repr_nullable_ptr(tcx, ty, mode)),
{
    if let TyKind::Adt(def) = tcx.kind_of(ty) {
        if let Some(field_ty) = option_like_field(def.variants@) {
            lemma_nonnull_asks(tcx, field_ty, mode);
            lemma_nullable_asks(tcx, field_ty);
        }
    }
}

/// A verdict is asked for rightly.
pub proof fn lemma_check_asks(tcx: TyCtxt, mode: CItemKind, ty: Ty, seen: Set<Ty>)
    ensures
        asks_rightly(tcx, check_type(tcx, mode, ty, seen).result),
    decreases pending(tcx.len(), seen), 0nat, 0nat,
{
    if !seen.contains(ty) && tcx.described(ty) {
        lemma_pending_insert(tcx.len(), seen, ty);
        lemma_repr_nullable_asks(tcx, ty, mode);
        let met = seen.insert(ty);
        match rule_of(tcx, mode, ty) {
            Rule::Verdict(_) => {},
            Rule::Fails(_) => {},
            Rule::Like(inner) => lemma_check_asks(tcx, mode, inner, met),
            Rule::All(tys) => lemma_check_all_asks(tcx, mode, tys, 0, met),
            Rule::Struct(def, variant) => lemma_check_variant_asks(
                tcx,
                mode,
                ty,
                def,
                variant,
                met,
            ),
            Rule::Enum(def) => lemma_check_variants_asks(tcx, mode, ty, def, 0, met),
        }
    }
}

proof fn lemma_check_all_asks(
    tcx: TyCtxt,
    mode: CItemKind,
    tys: Seq<Ty>,
    i: int,
    seen: Set<Ty>,
)
    ensures
        asks_rightly(tcx, check_all(tcx, mode, tys, i, seen).result),
    decreases pending(tcx.len(), seen), 1nat, tys.len() - i,
{
    if 0 <= i < tys.len() {
        let checked = check_type(tcx, mode, tys[i], seen);
        lemma_check_asks(tcx, mode, tys[i], seen);
        lemma_pending_union(tcx.len(), seen, checked.seen);
        lemma_check_all_asks(tcx, mode, tys, i + 1, seen.union(checked.seen));
    }
}

proof fn lemma_check_field_asks(tcx: TyCtxt, mode: CItemKind, field: FieldDef, seen: Set<Ty>)
    ensures
        asks_rightly(tcx, check_field(tcx, mode, field, seen).result),
    decreases pending(tcx.len(), seen), 1nat, 0nat,
{
    match field_type(tcx, field) {
        Ok(field_ty) => lemma_check_asks(tcx, mode, field_ty, seen),
        Err(_) => {},
    }
}

proof fn lemma_check_fields_asks(
    tcx: TyCtxt,
    mode: CItemKind,
    ty: Ty,
    def: AdtDef,
    fields: Seq<FieldDef>,
    i: int,
    all_phantom: bool,
    seen: Set<Ty>,
)
    ensures
        asks_rightly(tcx, check_fields(tcx, mode, ty, def, fields, i, all_phantom, seen).result),
    decreases pending(tcx.len(), seen), 2nat, fields.len() - i,
{
    if 0 <= i < fields.len() {
        let checked = check_field(tcx, mode, fields[i], seen);
        let met = seen.union(checked.seen);
        lemma_check_field_asks(tcx, mode, fields[i], seen);
        lemma_pending_union(tcx.len(), seen, checked.seen);
        lemma_check_fields_asks(tcx, mode, ty, def, fields, i + 1, false, met);
        lemma_check_fields_asks(tcx, mode, ty, def, fields, i + 1, all_phantom, met);
    }
}

proof fn lemma_check_variant_asks(
    tcx: TyCtxt,
    mode: CItemKind,
    ty: Ty,
    def: AdtDef,
    variant: VariantDef,
    seen: Set<Ty>,
)
    ensures
        asks_rightly(tcx, check_variant(tcx, mode, ty, def, variant, seen).result),
    decreases pending(tcx.len(), seen), 3nat, 0nat,
{
    if def.repr.transparent {
        match first_non_zst(variant.fields@) {
            Some(field) => lemma_check_field_asks(tcx, mode, field, seen),
            None => {},
        }
    } else {
        let fields = variant.fields@;
        lemma_check_fields_asks(tcx, mode, ty, def, fields, 0, fields.len() > 0, seen);
    }
}

proof fn lemma_check_variants_asks(
    tcx: TyCtxt,
    mode: CItemKind,
    ty: Ty,
    def: AdtDef,
    i: int,
    seen: Set<Ty>,
)
    ensures
        asks_rightly(tcx, check_variants(tcx, mode, ty, def, i, seen).result),
    decreases pending(tcx.len(), seen), 4nat, def.variants@.len() - i,
{
    if 0 <= i < def.variants@.len() {
        let checked = check_variant(tcx, mode, ty, def, def.variants@[i], seen);
        lemma_check_variant_asks(tcx, mode, ty, def, def.variants@[i], seen);
        lemma_pending_union(tcx.len(), seen, checked.seen);
        lemma_check_variants_asks(tcx, mode, ty, def, i + 1, seen.union(checked.seen));
    }
}

proof fn lemma_opaque_below_asks(tcx: TyCtxt, ty: Ty, path: Set<Ty>)
    ensures
        fails_for_types(tcx, opaque_below(tcx, ty, path)),
    decreases pending(tcx.len(), path), 0nat, 0nat,
{
    if tcx.described(ty) && !path.contains(ty) && tcx.data_of(ty).has_opaque_types {
        lemma_pending_insert(tcx.len(), path, ty);
        lemma_opaque_among_asks(tcx, tcx.data_of(ty).components@, 0, path.insert(ty));
    }
}

proof fn lemma_opaque_among_asks(tcx: TyCtxt, tys: Seq<Ty>, i: int, path: Set<Ty>)
    ensures
        fails_for_types(tcx, opaque_among(tcx, tys, i, path)),
    decreases pending(tcx.len(), path), 1nat, tys.len() - i,
{
    if 0 <= i < tys.len() {
        lemma_opaque_below_asks(tcx, tys[i], path);
        lemma_opaque_among_asks(tcx, tys, i + 1, path);
    }
}

/// An opaque type is asked for rightly.
pub proof fn lemma_opaque_asks(tcx: TyCtxt, ty: Ty)
    ensures
        asks_rightly(tcx, opaque_in(tcx, ty)),
{
    if let Ok(normalized) = tcx.spec_normalize(ty) {
        lemma_opaque_below_asks(tcx, normalized, Set::empty());
    }
}

/// What is reported of a type is asked for rightly.
pub proof fn lemma_report_asks(
    tcx: TyCtxt,
    mode: CItemKind,
    sp: Seq<char>,
    ty: Ty,
    is_static: bool,
    is_return_type: bool,
)
    ensures
        asks_rightly(tcx, report(tcx, mode, sp, ty, is_static, is_return_type)),
{
    lemma_opaque_asks(tcx, ty);
    if let Ok(normalized) = tcx.spec_normalize(ty) {
        lemma_check_asks(tcx, mode, normalized, Set::empty());
        lemma_verdict_justified(tcx, mode, normalized, Set::empty());
    }
}

proof fn lemma_inputs_report_asks(
    tcx: TyCtxt,
    mode: CItemKind,
    sig: FnSig,
    decl: FnDecl,
    n: nat,
)
    ensures
        asks_rightly(tcx, inputs_report(tcx, mode, sig, decl, n)),
    decreases n,
{
    if n > 0 {
        let i = n - 1;
        lemma_inputs_report_asks(tcx, mode, sig, decl, i as nat);
        lemma_report_asks(tcx, mode, decl.inputs@[i]@, sig.inputs@[i], false, false);
    }
}

/// What is reported of a function is asked for rightly.
pub proof fn lemma_fn_report_asks(tcx: TyCtxt, mode: CItemKind, sig: FnSig, decl: FnDecl)
    ensures
        asks_rightly(tcx, fn_report(tcx, mode, sig, decl)),
{
    lemma_inputs_report_asks(tcx, mode, sig, decl, input_count(sig, decl));
    if let Some(sp) = decl.output {
        lemma_report_asks(tcx, mode, sp@, sig.output, false, true);
    }
}

/// What is recorded of a function and of a foreign item is asked for rightly.
pub proof fn lemma_outcomes_ask(
    store: Store,
    tcx: TyCtxt,
    lints: Seq<Lint>,
    kind: FnKind,
    sig: FnSig,
    decl: FnDecl,
    abi: SpecAbi,
    item: ForeignItemKind,
)
    ensures
        asks_rightly(tcx, fn_outcome(store, tcx, lints, kind, sig, decl)),
        asks_rightly(tcx, foreign_item_outcome(store, tcx, lints, abi, item)),
{
    lemma_fn_report_asks(tcx, CItemKind::Definition, sig, decl);
    match item {
        ForeignItemKind::Fn(s, d) => lemma_fn_report_asks(tcx, CItemKind::Declaration, s, d),
        ForeignItemKind::Static(ty, place) => lemma_report_asks(
            tcx,
            CItemKind::Declaration,
            place@,
            ty,
            true,
            false,
        ),
        ForeignItemKind::Type => {},
    }
}

} // verus!
