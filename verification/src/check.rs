//! The check whether a type is "ffi-safe": whether it has a stable,
//! well-defined representation which can be exported to C code.
//!
//! The check walks over the types that a type is made of and judges each of
//! them once. [`rule_of`] says what a type asks for on its own;
//! [`check_type`] follows the rules from type to type.

use vstd::prelude::*;

use crate::error::{CheckError, Reason};
use crate::nullable::{first_non_zst, spec_repr_nullable_ptr, CItemKind};
use crate::pending::{lemma_pending_insert, lemma_pending_union, pending};
use crate::ty::{
    AdtDef, AdtKind, AliasKind, FieldDef, FnSig, IntTy, Ty, TyCtxt, TyKind, UintTy, VariantDef,
};

verus! {

/// The verdict on a type.
#[derive(Clone, Copy, Debug, PartialEq, Eq, Structural)]
pub enum FfiResult {
    FfiSafe,
    /// The type consists of phantom data alone.
    FfiPhantom(Ty),
    /// `ty`, which is the type itself or one it is made of, is improper.
    FfiUnsafe { ty: Ty, reason: Reason },
}

/// What a type asks for.
pub enum Rule {
    /// The verdict is given.
    Verdict(FfiResult),
    /// There is no verdict.
    Fails(CheckError),
    /// The verdict is that on another type.
    Like(Ty),
    /// All of these types must be safe.
    All(Seq<Ty>),
    /// The verdict is that on the one variant of a struct or a union.
    Struct(AdtDef, VariantDef),
    /// All the variants of an enum must be safe.
    Enum(AdtDef),
}

/// The verdict that a type is improper.
pub open spec fn improper(ty: Ty, reason: Reason) -> Rule {
    Rule::Verdict(FfiResult::FfiUnsafe { ty, reason })
}

/// What a struct or a union asks for.
pub open spec fn struct_rule(ty: Ty, def: AdtDef) -> Rule {
    if !def.repr.c && !def.repr.transparent {
        improper(
            ty,
            if def.kind is Struct {
                Reason::StructLayout
            } else {
                Reason::UnionLayout
            },
        )
    } else if def.variants@.len() == 0 {
        Rule::Fails(CheckError::NoVariant(ty))
    } else if def.variants@[0].is_field_list_non_exhaustive && !def.is_local {
        improper(
            ty,
            if def.kind is Struct {
                Reason::StructNonExhaustive
            } else {
                Reason::UnionNonExhaustive
            },
        )
    } else if def.variants@[0].fields@.len() == 0 {
        improper(
            ty,
            if def.kind is Struct {
                Reason::StructFieldless
            } else {
                Reason::UnionFieldless
            },
        )
    } else {
        Rule::Struct(def, def.variants@[0])
    }
}

/// What an enum asks for.
pub open spec fn enum_rule(tcx: TyCtxt, mode: CItemKind, ty: Ty, def: AdtDef) -> Rule {
    let represented = def.repr.c || def.repr.transparent || def.repr.int;
    if def.variants@.len() == 0 {
        // Empty enums are okay... although sort of useless.
        Rule::Verdict(FfiResult::FfiSafe)
    } else if !represented && spec_repr_nullable_ptr(tcx, ty, mode) is Err {
        Rule::Fails(spec_repr_nullable_ptr(tcx, ty, mode)->Err_0)
    } else if !represented && spec_repr_nullable_ptr(tcx, ty, mode)->Ok_0 is None {
        improper(ty, Reason::EnumNoRepresentation)
    } else if def.is_variant_list_non_exhaustive && !def.is_local {
        improper(ty, Reason::EnumNonExhaustive)
    } else {
        Rule::Enum(def)
    }
}

/// What a struct, a union or an enum asks for.
pub open spec fn adt_rule(tcx: TyCtxt, mode: CItemKind, ty: Ty, def: AdtDef) -> Rule {
    if def.boxed_ty is Some && mode is Definition {
        match tcx.lookup(def.boxed_ty->0) {
            Err(e) => Rule::Fails(e),
            Ok(boxed) => if boxed.is_sized {
                Rule::Verdict(FfiResult::FfiSafe)
            } else {
                improper(ty, Reason::Box)
            },
        }
    } else if def.is_phantom_data {
        Rule::Verdict(FfiResult::FfiPhantom(ty))
    } else {
        match def.kind {
            AdtKind::Struct | AdtKind::Union => struct_rule(ty, def),
            AdtKind::Enum => enum_rule(tcx, mode, ty, def),
        }
    }
}

/// What a pointer asks for. In a definition a pointer to a sized type is
/// opaque to the caller; a raw pointer to `()` is C's `void` pointer.
pub open spec fn pointer_rule(tcx: TyCtxt, mode: CItemKind, pointee: Ty, raw: bool) -> Rule {
    match tcx.lookup(pointee) {
        Err(e) => Rule::Fails(e),
        Ok(data) => if mode is Definition && data.is_sized {
            Rule::Verdict(FfiResult::FfiSafe)
        } else if raw && data.kind.spec_is_unit() {
            Rule::Verdict(FfiResult::FfiSafe)
        } else {
            Rule::Like(pointee)
        },
    }
}

/// What a function pointer asks for: its output, unless it is `()`, and its
/// inputs.
pub open spec fn fn_ptr_rule(tcx: TyCtxt, ty: Ty, sig: FnSig) -> Rule {
    if sig.abi.spec_is_internal() {
        improper(ty, Reason::FnPtr)
    } else {
        match tcx.spec_is_unit(sig.output) {
            Err(e) => Rule::Fails(e),
            Ok(true) => Rule::All(sig.inputs@),
            Ok(false) => Rule::All(seq![sig.output] + sig.inputs@),
        }
    }
}

/// What the described type `ty` asks for.
pub open spec fn rule_of(tcx: TyCtxt, mode: CItemKind, ty: Ty) -> Rule {
    match tcx.kind_of(ty) {
        TyKind::Adt(def) => adt_rule(tcx, mode, ty, def),
        TyKind::Char => improper(ty, Reason::Char),
        TyKind::Int(IntTy::I128) => improper(ty, Reason::Bit128),
        TyKind::Uint(UintTy::U128) => improper(ty, Reason::Bit128),
        // Primitive types with a stable representation.
        TyKind::Bool => Rule::Verdict(FfiResult::FfiSafe),
        TyKind::Int(_) => Rule::Verdict(FfiResult::FfiSafe),
        TyKind::Uint(_) => Rule::Verdict(FfiResult::FfiSafe),
        TyKind::Float(_) => Rule::Verdict(FfiResult::FfiSafe),
        TyKind::Never => Rule::Verdict(FfiResult::FfiSafe),
        TyKind::Slice(_) => improper(ty, Reason::Slice),
        TyKind::Dynamic => improper(ty, Reason::Dyn),
        TyKind::Str => improper(ty, Reason::Str),
        TyKind::Tuple(_) => improper(ty, Reason::Tuple),
        TyKind::RawPtr(pointer) => pointer_rule(tcx, mode, pointer.ty, true),
        TyKind::Ref(pointer) => pointer_rule(tcx, mode, pointer.ty, false),
        TyKind::Array(inner_ty) => Rule::Like(inner_ty),
        TyKind::FnPtr(sig) => fn_ptr_rule(tcx, ty, sig),
        TyKind::Foreign => Rule::Verdict(FfiResult::FfiSafe),
        // While opaque types are checked for earlier, if a projection in a struct field
        // normalizes to an opaque type, then it will reach this branch.
        TyKind::Alias(AliasKind::Opaque) => improper(ty, Reason::Opaque),
        // `extern "C" fn` functions can have type parameters, which may or may not be FFI-safe,
        //  so they are currently ignored for the purposes of this lint.
        TyKind::Param | TyKind::Alias(AliasKind::Projection) => if mode is Definition {
            Rule::Verdict(FfiResult::FfiSafe)
        } else {
            Rule::Fails(CheckError::UnexpectedType(ty))
        },
        TyKind::Infer | TyKind::Bound | TyKind::Error | TyKind::Closure | TyKind::Generator
        | TyKind::GeneratorWitness | TyKind::Placeholder | TyKind::FnDef => Rule::Fails(
            CheckError::UnexpectedType(ty),
        ),
    }
}

/// The type under which a field is checked: its own, where an opaque type
/// occurs in it, and else what that normalizes to.
pub open spec fn field_type(tcx: TyCtxt, field: FieldDef) -> Result<Ty, CheckError> {
    match tcx.lookup(field.ty) {
        Err(e) => Err(e),
        Ok(data) => if data.has_opaque_types {
            Ok(field.ty)
        } else {
            tcx.spec_normalize(field.ty)
        },
    }
}

/// What a check comes to: the verdict, and the types met so far.
pub struct Checked {
    pub result: Result<FfiResult, CheckError>,
    pub seen: Set<Ty>,
}

/// The check of a type, where those in `seen` were met before. A type met
/// again is taken to be safe.
pub open spec fn check_type(tcx: TyCtxt, mode: CItemKind, ty: Ty, seen: Set<Ty>) -> Checked
    decreases pending(tcx.len(), seen), 0nat, 0nat,
{
    if seen.contains(ty) {
        Checked { result: Ok(FfiResult::FfiSafe), seen }
    } else if !tcx.described(ty) {
        Checked { result: Err(CheckError::Undescribed(ty)), seen: seen.insert(ty) }
    } else {
        proof {
            lemma_pending_insert(tcx.len(), seen, ty);
        }
        follow_rule(tcx, mode, ty, rule_of(tcx, mode, ty), seen.insert(ty))
    }
}

/// What comes of the rule for the type `ty`.
pub open spec fn follow_rule(
    tcx: TyCtxt,
    mode: CItemKind,
    ty: Ty,
    rule: Rule,
    seen: Set<Ty>,
) -> Checked
    decreases pending(tcx.len(), seen), 5nat, 0nat,
{
    match rule {
        Rule::Verdict(verdict) => Checked { result: Ok(verdict), seen },
        Rule::Fails(e) => Checked { result: Err(e), seen },
        Rule::Like(inner) => check_type(tcx, mode, inner, seen),
        Rule::All(tys) => check_all(tcx, mode, tys, 0, seen),
        Rule::Struct(def, variant) => check_variant(tcx, mode, ty, def, variant, seen),
        Rule::Enum(def) => check_variants(tcx, mode, ty, def, 0, seen),
    }
}

/// The check of the types from the `i`th on, which ends at the first that is
/// not safe.
pub open spec fn check_all(
    tcx: TyCtxt,
    mode: CItemKind,
    tys: Seq<Ty>,
    i: int,
    seen: Set<Ty>,
) -> Checked
    decreases pending(tcx.len(), seen), 1nat, tys.len() - i,
{
    if i < 0 || i >= tys.len() {
        Checked { result: Ok(FfiResult::FfiSafe), seen }
    } else {
        let checked = check_type(tcx, mode, tys[i], seen);
        if checked.result == Ok::<FfiResult, CheckError>(FfiResult::FfiSafe) {
            proof {
                lemma_pending_union(tcx.len(), seen, checked.seen);
            }
            check_all(tcx, mode, tys, i + 1, seen.union(checked.seen))
        } else {
            checked
        }
    }
}

/// The check of a field.
pub open spec fn check_field(
    tcx: TyCtxt,
    mode: CItemKind,
    field: FieldDef,
    seen: Set<Ty>,
) -> Checked
    decreases pending(tcx.len(), seen), 1nat, 0nat,
{
    match field_type(tcx, field) {
        Err(e) => Checked { result: Err(e), seen },
        Ok(field_ty) => check_type(tcx, mode, field_ty, seen),
    }
}

/// The check of the fields from the `i`th on, where `all_phantom` says whether
/// all those before it are phantom data.
pub open spec fn check_fields(
    tcx: TyCtxt,
    mode: CItemKind,
    ty: Ty,
    def: AdtDef,
    fields: Seq<FieldDef>,
    i: int,
    all_phantom: bool,
    seen: Set<Ty>,
) -> Checked
    decreases pending(tcx.len(), seen), 2nat, fields.len() - i,
{
    if i < 0 || i >= fields.len() {
        Checked {
            result: Ok(
                if all_phantom {
                    FfiResult::FfiPhantom(ty)
                } else {
                    FfiResult::FfiSafe
                },
            ),
            seen,
        }
    } else {
        let checked = check_field(tcx, mode, fields[i], seen);
        proof {
            lemma_pending_union(tcx.len(), seen, checked.seen);
        }
        let met = seen.union(checked.seen);
        match checked.result {
            Ok(FfiResult::FfiSafe) => check_fields(tcx, mode, ty, def, fields, i + 1, false, met),
            Ok(FfiResult::FfiPhantom(_)) => if def.kind is Enum {
                Checked {
                    result: Ok(FfiResult::FfiUnsafe { ty, reason: Reason::EnumPhantomData }),
                    seen: met,
                }
            } else {
                check_fields(tcx, mode, ty, def, fields, i + 1, all_phantom, met)
            },
            _ => checked,
        }
    }
}

/// The check of a variant. Of a transparent one only the wrapped field counts;
/// one that wraps nothing behaves like `()`.
pub open spec fn check_variant(
    tcx: TyCtxt,
    mode: CItemKind,
    ty: Ty,
    def: AdtDef,
    variant: VariantDef,
    seen: Set<Ty>,
) -> Checked
    decreases pending(tcx.len(), seen), 3nat, 0nat,
{
    if def.repr.transparent {
        match first_non_zst(variant.fields@) {
            Some(field) => check_field(tcx, mode, field, seen),
            None => Checked {
                result: Ok(FfiResult::FfiUnsafe { ty, reason: Reason::StructZeroSized }),
                seen,
            },
        }
    } else {
        check_fields(tcx, mode, ty, def, variant.fields@, 0, variant.fields@.len() > 0, seen)
    }
}

/// The check of the variants of an enum from the `i`th on, which ends at the
/// first that is not safe.
pub open spec fn check_variants(
    tcx: TyCtxt,
    mode: CItemKind,
    ty: Ty,
    def: AdtDef,
    i: int,
    seen: Set<Ty>,
) -> Checked
    decreases pending(tcx.len(), seen), 4nat, def.variants@.len() - i,
{
    if i < 0 || i >= def.variants@.len() {
        Checked { result: Ok(FfiResult::FfiSafe), seen }
    } else if def.variants@[i].is_field_list_non_exhaustive && !def.variants@[i].is_local {
        Checked {
            result: Ok(FfiResult::FfiUnsafe { ty, reason: Reason::EnumNonExhaustiveVariant }),
            seen,
        }
    } else {
        let checked = check_variant(tcx, mode, ty, def, def.variants@[i], seen);
        if checked.result == Ok::<FfiResult, CheckError>(FfiResult::FfiSafe) {
            proof {
                lemma_pending_union(tcx.len(), seen, checked.seen);
            }
            check_variants(tcx, mode, ty, def, i + 1, seen.union(checked.seen))
        } else {
            checked
        }
    }
}

/// A check forgets no type that was met before it.
pub proof fn lemma_check_type_keeps_seen(tcx: TyCtxt, mode: CItemKind, ty: Ty, seen: Set<Ty>)
    ensures
        seen.subset_of(check_type(tcx, mode, ty, seen).seen),
        check_type(tcx, mode, ty, seen).seen.contains(ty),
    decreases pending(tcx.len(), seen), 0nat, 0nat,
{
    if !seen.contains(ty) && tcx.described(ty) {
        lemma_pending_insert(tcx.len(), seen, ty);
        let met = seen.insert(ty);
        match rule_of(tcx, mode, ty) {
            Rule::Verdict(_) => {},
            Rule::Fails(_) => {},
            Rule::Like(inner) => lemma_check_type_keeps_seen(tcx, mode, inner, met),
            Rule::All(tys) => lemma_check_all_keeps_seen(tcx, mode, tys, 0, met),
            Rule::Struct(def, variant) => lemma_check_variant_keeps_seen(
                tcx,
                mode,
                ty,
                def,
                variant,
                met,
            ),
            Rule::Enum(def) => lemma_check_variants_keeps_seen(tcx, mode, ty, def, 0, met),
        }
    }
}

proof fn lemma_check_all_keeps_seen(
    tcx: TyCtxt,
    mode: CItemKind,
    tys: Seq<Ty>,
    i: int,
    seen: Set<Ty>,
)
    ensures
        seen.subset_of(check_all(tcx, mode, tys, i, seen).seen),
    decreases pending(tcx.len(), seen), 1nat, tys.len() - i,
{
    if 0 <= i < tys.len() {
        lemma_check_type_keeps_seen(tcx, mode, tys[i], seen);
        let checked = check_type(tcx, mode, tys[i], seen);
        lemma_pending_union(tcx.len(), seen, checked.seen);
        lemma_check_all_keeps_seen(tcx, mode, tys, i + 1, seen.union(checked.seen));
    }
}

/// The check of a field forgets no type that was met before it.
pub proof fn lemma_check_field_keeps_seen(
    tcx: TyCtxt,
    mode: CItemKind,
    field: FieldDef,
    seen: Set<Ty>,
)
    ensures
        seen.subset_of(check_field(tcx, mode, field, seen).seen),
    decreases pending(tcx.len(), seen), 1nat, 0nat,
{
    match field_type(tcx, field) {
        Ok(field_ty) => lemma_check_type_keeps_seen(tcx, mode, field_ty, seen),
        Err(_) => {},
    }
}

proof fn lemma_check_fields_keeps_seen(
    tcx: TyCtxt,
    mode: CItemKind,
    ty: Ty,
    def: AdtDef,
    fields: Seq<FieldDef>,
    i: int,
    all_phantom: bool,
    seen: Set<Ty>,
)
    ensures
        seen.subset_of(check_fields(tcx, mode, ty, def, fields, i, all_phantom, seen).seen),
    decreases pending(tcx.len(), seen), 2nat, fields.len() - i,
{
    if 0 <= i < fields.len() {
        lemma_check_field_keeps_seen(tcx, mode, fields[i], seen);
        let checked = check_field(tcx, mode, fields[i], seen);
        lemma_pending_union(tcx.len(), seen, checked.seen);
        let met = seen.union(checked.seen);
        lemma_check_fields_keeps_seen(tcx, mode, ty, def, fields, i + 1, false, met);
        lemma_check_fields_keeps_seen(tcx, mode, ty, def, fields, i + 1, all_phantom, met);
    }
}

/// The check of a variant forgets no type that was met before it.
pub proof fn lemma_check_variant_keeps_seen(
    tcx: TyCtxt,
    mode: CItemKind,
    ty: Ty,
    def: AdtDef,
    variant: VariantDef,
    seen: Set<Ty>,
)
    ensures
        seen.subset_of(check_variant(tcx, mode, ty, def, variant, seen).seen),
    decreases pending(tcx.len(), seen), 3nat, 0nat,
{
    if def.repr.transparent {
        match first_non_zst(variant.fields@) {
            Some(field) => lemma_check_field_keeps_seen(tcx, mode, field, seen),
            None => {},
        }
    } else {
        lemma_check_fields_keeps_seen(
            tcx,
            mode,
            ty,
            def,
            variant.fields@,
            0,
            variant.fields@.len() > 0,
            seen,
        );
    }
}

proof fn lemma_check_variants_keeps_seen(
    tcx: TyCtxt,
    mode: CItemKind,
    ty: Ty,
    def: AdtDef,
    i: int,
    seen: Set<Ty>,
)
    ensures
        seen.subset_of(check_variants(tcx, mode, ty, def, i, seen).seen),
    decreases pending(tcx.len(), seen), 4nat, def.variants@.len() - i,
{
    if 0 <= i < def.variants@.len() {
        lemma_check_variant_keeps_seen(tcx, mode, ty, def, def.variants@[i], seen);
        let checked = check_variant(tcx, mode, ty, def, def.variants@[i], seen);
        lemma_pending_union(tcx.len(), seen, checked.seen);
        lemma_check_variants_keeps_seen(tcx, mode, ty, def, i + 1, seen.union(checked.seen));
    }
}

} // verus!
