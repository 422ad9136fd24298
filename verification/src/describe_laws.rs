//! Describing more types never changes an answer.
//!
//! A check that lacks the description of a type says so. Once the type is
//! described the check is asked again. These laws say that an answer given on
//! the way stands: it does not depend on which other types are described.

use vstd::prelude::*;

use crate::check::{
    check_all, check_field, check_fields, check_type, check_variant, check_variants, field_type,
    rule_of, Rule,
};
use crate::error::CheckError;
use crate::lint::{fn_abi, fn_outcome, foreign_item_outcome, FnKind, ForeignItemKind, Lint, SpecAbi};
use crate::nullable::{
    any_nonnull, first_non_zst, is_wrapper, nonnull_below, nullable_below, option_like_field,
    spec_get_nullable_type, spec_repr_nullable_ptr, spec_ty_is_known_nonnull, wrapped_types,
    CItemKind,
};
use crate::opaque::{is_opaque, opaque_among, opaque_below};
use crate::pending::{lemma_pending_insert, lemma_pending_union, pending};
use crate::report::{
    fn_report, input_count, inputs_report, lemma_finding_justified, report, FnDecl,
};
use crate::store::Store;
use crate::ty::{AdtDef, FieldDef, FnSig, Ty, TyCtxt, TyData, TyKind, VariantDef};

verus! {

/// Whether `more` describes all that `tcx` describes, and in the same way.
pub open spec fn extends(more: TyCtxt, tcx: TyCtxt) -> bool {
    forall|ty: Ty| #[trigger]
        tcx.described(ty) ==> more.described(ty) && more.data_of(ty) == tcx.data_of(ty)
}

/// Whether an answer is something else than that a description is missing.
pub open spec fn answered<T>(result: Result<T, CheckError>) -> bool {
    !(result matches Err(CheckError::Undescribed(_)))
}

/// Declaring a type extends a table.
pub proof fn lemma_declare_extends(tcx: TyCtxt, more: TyCtxt)
    requires
        more.types@ == tcx.types@.push(None),
    ensures
        extends(more, tcx),
{
    assert forall|t: Ty| #[trigger] tcx.described(t) implies more.described(t) && more.data_of(t)
        == tcx.data_of(t) by {
        assert(more.types@[t as int] == tcx.types@[t as int]);
    }
}

/// Describing a type for the first time extends a table.
pub proof fn lemma_describe_extends(tcx: TyCtxt, more: TyCtxt, ty: Ty, data: TyData)
    requires
        ty < tcx.len(),
        !tcx.described(ty),
        more.types@ == tcx.types@.update(ty as int, Some(data)),
    ensures
        extends(more, tcx),
        more.described(ty),
        more.data_of(ty) == data,
{
    assert forall|t: Ty| #[trigger] tcx.described(t) implies more.described(t) && more.data_of(t)
        == tcx.data_of(t) by {
        assert(more.types@[t as int] == tcx.types@[t as int]);
    }
}

proof fn lemma_nonnull_stands(
    tcx: TyCtxt,
    more: TyCtxt,
    ty: Ty,
    mode: CItemKind,
    path: Set<Ty>,
)
    requires
        extends(more, tcx),
        answered(nonnull_below(tcx, ty, mode, path)),
    ensures
        nonnull_below(more, ty, mode, path) == nonnull_below(tcx, ty, mode, path),
    decreases pending(tcx.len(), path), 0nat, 0nat,
{
    if !path.contains(ty) {
        if let TyKind::Adt(def) = tcx.kind_of(ty) {
            lemma_pending_insert(tcx.len(), path, ty);
            let tys = wrapped_types(def.variants@);
            if answered(any_nonnull(tcx, tys, 0, mode, path.insert(ty))) {
                lemma_any_nonnull_stands(tcx, more, tys, 0, mode, path.insert(ty));
            }
        }
    }
}

proof fn lemma_any_nonnull_stands(
    tcx: TyCtxt,
    more: TyCtxt,
    tys: Seq<Ty>,
    i: int,
    mode: CItemKind,
    path: Set<Ty>,
)
    requires
        extends(more, tcx),
        answered(any_nonnull(tcx, tys, i, mode, path)),
    ensures
        any_nonnull(more, tys, i, mode, path) == any_nonnull(tcx, tys, i, mode, path),
    decreases pending(tcx.len(), path), 1nat, tys.len() - i,
{
    if 0 <= i < tys.len() {
        lemma_nonnull_stands(tcx, more, tys[i], mode, path);
        if nonnull_below(tcx, tys[i], mode, path) == Ok::<bool, CheckError>(false) {
            lemma_any_nonnull_stands(tcx, more, tys, i + 1, mode, path);
        }
    }
}

proof fn lemma_nullable_stands(tcx: TyCtxt, more: TyCtxt, ty: Ty, path: Set<Ty>)
    requires
        extends(more, tcx),
        answered(nullable_below(tcx, ty, path)),
    ensures
        nullable_below(more, ty, path) == nullable_below(tcx, ty, path),
    decreases pending(tcx.len(), path),
{
    if !path.contains(ty) {
        if let TyKind::Adt(def) = tcx.kind_of(ty) {
            let tys = wrapped_types(def.variants@);
            if is_wrapper(tcx, ty, def) && tys.len() == 1 {
                lemma_pending_insert(tcx.len(), path, ty);
                lemma_nullable_stands(tcx, more, tys[0], path.insert(ty));
            }
        }
    }
}

proof fn lemma_repr_nullable_stands(tcx: TyCtxt, more: TyCtxt, ty: Ty, mode: CItemKind)
    requires
        extends(more, tcx),
        answered(spec_repr_nullable_ptr(tcx, ty, mode)),
    ensures
        spec_repr_nullable_ptr(more, ty, mode) == spec_repr_nullable_ptr(tcx, ty, mode),
{
    if let TyKind::Adt(def) = tcx.kind_of(ty) {
        if let Some(field_ty) = option_like_field(def.variants@) {
            lemma_nonnull_stands(tcx, more, field_ty, mode, Set::empty());
            if spec_ty_is_known_nonnull(tcx, field_ty, mode) == Ok::<bool, CheckError>(true) {
                assert(tcx.described(field_ty));
                if answered(spec_get_nullable_type(tcx, field_ty)) {
                    lemma_nullable_stands(tcx, more, field_ty, Set::empty());
                }
            }
        }
    }
}

proof fn lemma_rule_stands(tcx: TyCtxt, more: TyCtxt, mode: CItemKind, ty: Ty)
    requires
        extends(more, tcx),
        tcx.described(ty),
        !(rule_of(tcx, mode, ty) matches Rule::Fails(CheckError::Undescribed(_))),
    ensures
        rule_of(more, mode, ty) == rule_of(tcx, mode, ty),
{
    if answered(spec_repr_nullable_ptr(tcx, ty, mode)) {
        lemma_repr_nullable_stands(tcx, more, ty, mode);
    }
}

/// The verdict on a type stands, and so do the types met on the way.
pub proof fn lemma_check_stands(
    tcx: TyCtxt,
    more: TyCtxt,
    mode: CItemKind,
    ty: Ty,
    seen: Set<Ty>,
)
    requires
        extends(more, tcx),
        answered(check_type(tcx, mode, ty, seen).result),
    ensures
        check_type(more, mode, ty, seen) == check_type(tcx, mode, ty, seen),
    decreases pending(tcx.len(), seen), 0nat, 0nat,
{
    if !seen.contains(ty) {
        lemma_pending_insert(tcx.len(), seen, ty);
        lemma_rule_stands(tcx, more, mode, ty);
        let met = seen.insert(ty);
        match rule_of(tcx, mode, ty) {
            Rule::Verdict(_) => {},
            Rule::Fails(_) => {},
            Rule::Like(inner) => lemma_check_stands(tcx, more, mode, inner, met),
            Rule::All(tys) => lemma_check_all_stands(tcx, more, mode, tys, 0, met),
            Rule::Struct(def, variant) => lemma_check_variant_stands(
                tcx,
                more,
                mode,
                ty,
                def,
                variant,
                met,
            ),
            Rule::Enum(def) => lemma_check_variants_stands(tcx, more, mode, ty, def, 0, met),
        }
    }
}

proof fn lemma_check_all_stands(
    tcx: TyCtxt,
    more: TyCtxt,
    mode: CItemKind,
    tys: Seq<Ty>,
    i: int,
    seen: Set<Ty>,
)
    requires
        extends(more, tcx),
        answered(check_all(tcx, mode, tys, i, seen).result),
    ensures
        check_all(more, mode, tys, i, seen) == check_all(tcx, mode, tys, i, seen),
    decreases pending(tcx.len(), seen), 1nat, tys.len() - i,
{
    if 0 <= i < tys.len() {
        let checked = check_type(tcx, mode, tys[i], seen);
        lemma_check_stands(tcx, more, mode, tys[i], seen);
        lemma_pending_union(tcx.len(), seen, checked.seen);
        if checked.result matches Ok(verdict) && verdict is FfiSafe {
            lemma_check_all_stands(tcx, more, mode, tys, i + 1, seen.union(checked.seen));
        }
    }
}

proof fn lemma_check_field_stands(
    tcx: TyCtxt,
    more: TyCtxt,
    mode: CItemKind,
    field: FieldDef,
    seen: Set<Ty>,
)
    requires
        extends(more, tcx),
        answered(check_field(tcx, mode, field, seen).result),
    ensures
        check_field(more, mode, field, seen) == check_field(tcx, mode, field, seen),
    decreases pending(tcx.len(), seen), 1nat, 0nat,
{
    assert(tcx.described(field.ty));
    match field_type(tcx, field) {
        Ok(field_ty) => lemma_check_stands(tcx, more, mode, field_ty, seen),
        Err(_) => {},
    }
}

proof fn lemma_check_fields_stands(
    tcx: TyCtxt,
    more: TyCtxt,
    mode: CItemKind,
    ty: Ty,
    def: AdtDef,
    fields: Seq<FieldDef>,
    i: int,
    all_phantom: bool,
    seen: Set<Ty>,
)
    requires
        extends(more, tcx),
        answered(check_fields(tcx, mode, ty, def, fields, i, all_phantom, seen).result),
    ensures
        check_fields(more, mode, ty, def, fields, i, all_phantom, seen) == check_fields(
            tcx,
            mode,
            ty,
            def,
            fields,
            i,
            all_phantom,
            seen,
        ),
    decreases pending(tcx.len(), seen), 2nat, fields.len() - i,
{
    if 0 <= i < fields.len() {
        let checked = check_field(tcx, mode, fields[i], seen);
        lemma_check_field_stands(tcx, more, mode, fields[i], seen);
        lemma_pending_union(tcx.len(), seen, checked.seen);
        let met = seen.union(checked.seen);
        if let Ok(verdict) = checked.result {
            if verdict is FfiSafe {
                lemma_check_fields_stands(tcx, more, mode, ty, def, fields, i + 1, false, met);
            } else if verdict is FfiPhantom && def.kind !is Enum {
                lemma_check_fields_stands(
                    tcx,
                    more,
                    mode,
                    ty,
                    def,
                    fields,
                    i + 1,
                    all_phantom,
                    met,
                );
            }
        }
    }
}

proof fn lemma_check_variant_stands(
    tcx: TyCtxt,
    more: TyCtxt,
    mode: CItemKind,
    ty: Ty,
    def: AdtDef,
    variant: VariantDef,
    seen: Set<Ty>,
)
    requires
        extends(more, tcx),
        answered(check_variant(tcx, mode, ty, def, variant, seen).result),
    ensures
        check_variant(more, mode, ty, def, variant, seen) == check_variant(
            tcx,
            mode,
            ty,
            def,
            variant,
            seen,
        ),
    decreases pending(tcx.len(), seen), 3nat, 0nat,
{
    if def.repr.transparent {
        match first_non_zst(variant.fields@) {
            Some(field) => lemma_check_field_stands(tcx, more, mode, field, seen),
            None => {},
        }
    } else {
        lemma_check_fields_stands(
            tcx,
            more,
            mode,
            ty,
            def,
            variant.fields@,
            0,
            variant.fields@.len() > 0,
            seen,
        );
    }
}

proof fn lemma_check_variants_stands(
    tcx: TyCtxt,
    more: TyCtxt,
    mode: CItemKind,
    ty: Ty,
    def: AdtDef,
    i: int,
    seen: Set<Ty>,
)
    requires
        extends(more, tcx),
        answered(check_variants(tcx, mode, ty, def, i, seen).result),
    ensures
        check_variants(more, mode, ty, def, i, seen) == check_variants(
            tcx,
            mode,
            ty,
            def,
            i,
            seen,
        ),
    decreases pending(tcx.len(), seen), 4nat, def.variants@.len() - i,
{
    if 0 <= i < def.variants@.len() && !(def.variants@[i].is_field_list_non_exhaustive
        && !def.variants@[i].is_local) {
        let checked = check_variant(tcx, mode, ty, def, def.variants@[i], seen);
        lemma_check_variant_stands(tcx, more, mode, ty, def, def.variants@[i], seen);
        lemma_pending_union(tcx.len(), seen, checked.seen);
        if checked.result matches Ok(verdict) && verdict is FfiSafe {
            lemma_check_variants_stands(
                tcx,
                more,
                mode,
                ty,
                def,
                i + 1,
                seen.union(checked.seen),
            );
        }
    }
}

proof fn lemma_opaque_stands(tcx: TyCtxt, more: TyCtxt, ty: Ty, path: Set<Ty>)
    requires
        extends(more, tcx),
        answered(opaque_below(tcx, ty, path)),
    ensures
        opaque_below(more, ty, path) == opaque_below(tcx, ty, path),
    decreases pending(tcx.len(), path), 0nat, 0nat,
{
    if !path.contains(ty) && tcx.data_of(ty).has_opaque_types && !is_opaque(tcx, ty) {
        lemma_pending_insert(tcx.len(), path, ty);
        lemma_opaque_among_stands(
            tcx,
            more,
            tcx.data_of(ty).components@,
            0,
            path.insert(ty),
        );
    }
}

proof fn lemma_opaque_among_stands(
    tcx: TyCtxt,
    more: TyCtxt,
    tys: Seq<Ty>,
    i: int,
    path: Set<Ty>,
)
    requires
        extends(more, tcx),
        answered(opaque_among(tcx, tys, i, path)),
    ensures
        opaque_among(more, tys, i, path) == opaque_among(tcx, tys, i, path),
    decreases pending(tcx.len(), path), 1nat, tys.len() - i,
{
    if 0 <= i < tys.len() {
        lemma_opaque_stands(tcx, more, tys[i], path);
        if opaque_below(tcx, tys[i], path) == Ok::<Option<Ty>, CheckError>(None) {
            lemma_opaque_among_stands(tcx, more, tys, i + 1, path);
        }
    }
}

/// What is reported of a type stands.
pub proof fn lemma_report_stands(
    tcx: TyCtxt,
    more: TyCtxt,
    mode: CItemKind,
    sp: Seq<char>,
    ty: Ty,
    is_static: bool,
    is_return_type: bool,
)
    requires
        extends(more, tcx),
        answered(report(tcx, mode, sp, ty, is_static, is_return_type)),
    ensures
        report(more, mode, sp, ty, is_static, is_return_type) == report(
            tcx,
            mode,
            sp,
            ty,
            is_static,
            is_return_type,
        ),
{
    assert(tcx.described(ty));
    if let Ok(normalized) = tcx.spec_normalize(ty) {
        lemma_opaque_stands(tcx, more, normalized, Set::empty());
        if answered(check_type(tcx, mode, normalized, Set::empty()).result) {
            lemma_check_stands(tcx, more, mode, normalized, Set::empty());
        }
    }
    lemma_finding_justified(tcx, mode, ty, is_static, is_return_type);
}

proof fn lemma_inputs_report_stands(
    tcx: TyCtxt,
    more: TyCtxt,
    mode: CItemKind,
    sig: FnSig,
    decl: FnDecl,
    n: nat,
)
    requires
        extends(more, tcx),
        answered(inputs_report(tcx, mode, sig, decl, n)),
    ensures
        inputs_report(more, mode, sig, decl, n) == inputs_report(tcx, mode, sig, decl, n),
    decreases n,
{
    if n > 0 {
        lemma_inputs_report_stands(tcx, more, mode, sig, decl, (n - 1) as nat);
        if inputs_report(tcx, mode, sig, decl, (n - 1) as nat) is Ok {
            lemma_report_stands(
                tcx,
                more,
                mode,
                decl.inputs@[n - 1]@,
                sig.inputs@[n - 1],
                false,
                false,
            );
        }
    }
}

/// What is reported of a function stands.
pub proof fn lemma_fn_report_stands(
    tcx: TyCtxt,
    more: TyCtxt,
    mode: CItemKind,
    sig: FnSig,
    decl: FnDecl,
)
    requires
        extends(more, tcx),
        answered(fn_report(tcx, mode, sig, decl)),
    ensures
        fn_report(more, mode, sig, decl) == fn_report(tcx, mode, sig, decl),
{
    let n = input_count(sig, decl);
    lemma_inputs_report_stands(tcx, more, mode, sig, decl, n);
    if inputs_report(tcx, mode, sig, decl, n) is Ok {
        if let Some(sp) = decl.output {
            lemma_report_stands(tcx, more, mode, sp@, sig.output, false, true);
        }
    }
}

/// What is recorded of a function of the crate stands.
pub proof fn lemma_fn_outcome_stands(
    store: Store,
    tcx: TyCtxt,
    more: TyCtxt,
    lints: Seq<Lint>,
    kind: FnKind,
    sig: FnSig,
    decl: FnDecl,
)
    requires
        extends(more, tcx),
        answered(fn_outcome(store, tcx, lints, kind, sig, decl)),
    ensures
        fn_outcome(store, more, lints, kind, sig, decl) == fn_outcome(
            store,
            tcx,
            lints,
            kind,
            sig,
            decl,
        ),
{
    if let Some(abi) = fn_abi(kind) {
        if !abi.kind.spec_is_internal() {
            lemma_fn_report_stands(tcx, more, CItemKind::Definition, sig, decl);
        }
    }
}

/// What is recorded of an item of a foreign block stands.
pub proof fn lemma_foreign_item_outcome_stands(
    store: Store,
    tcx: TyCtxt,
    more: TyCtxt,
    lints: Seq<Lint>,
    abi: SpecAbi,
    kind: ForeignItemKind,
)
    requires
        extends(more, tcx),
        answered(foreign_item_outcome(store, tcx, lints, abi, kind)),
    ensures
        foreign_item_outcome(store, more, lints, abi, kind) == foreign_item_outcome(
            store,
            tcx,
            lints,
            abi,
            kind,
        ),
{
    if !abi.kind.spec_is_internal() {
        match kind {
            ForeignItemKind::Fn(sig, decl) => lemma_fn_report_stands(
                tcx,
                more,
                CItemKind::Declaration,
                sig,
                decl,
            ),
            ForeignItemKind::Static(ty, span) => lemma_report_stands(
                tcx,
                more,
                CItemKind::Declaration,
                span@,
                ty,
                true,
                false,
            ),
            ForeignItemKind::Type => {},
        }
    }
}

} // verus!
