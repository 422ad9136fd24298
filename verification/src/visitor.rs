//! The walk over the types of a foreign item.

use vstd::prelude::*;

use std::collections::HashSet;

use crate::check::{
    adt_rule, check_all, check_field, check_fields, check_type, check_variant, check_variants,
    enum_rule, fn_ptr_rule, follow_rule, lemma_check_field_keeps_seen, lemma_check_type_keeps_seen,
    lemma_check_variant_keeps_seen, FfiResult,
};
use crate::error::{CheckError, Reason};
use crate::nullable::{repr_nullable_ptr, transparent_newtype_field, CItemKind};
use crate::opaque::{find_opaque, lemma_opaque_below_finds, opaque_in};
use crate::pending::{lemma_pending_insert, lemma_pending_subset, pending};
use crate::report::{
    fn_report, input_count, inputs_report, lemma_finding_justified, lemma_inputs_report_fails,
    observation, observations, report, FnDecl, ObservedImproperType,
};
use crate::ty::{
    tykind_discriminant, AbiKind, AdtDef, AdtKind, AliasKind, FieldDef, FnSig, IntTy, Ty, TyCtxt,
    TyKind, UintTy, VariantDef,
};

verus! {

/// Collects the improper types of one foreign item.
pub struct ImproperCTypesVisitor<'a> {
    pub cx: &'a TyCtxt,
    pub mode: CItemKind,
    pub errors: Vec<ObservedImproperType>,
}

impl<'a> ImproperCTypesVisitor<'a> {
    /// Checks if the given field's type is "ffi-safe".
    pub fn check_field_type_for_ffi(&self, cache: &mut HashSet<Ty>, field: &FieldDef) -> (r: Result<
        FfiResult,
        CheckError,
    >)
        ensures
            r == check_field(*self.cx, self.mode, *field, old(cache)@).result,
            final(cache)@ == check_field(
                *self.cx,
                self.mode,
                *field,
                old(cache)@,
            ).seen,
        decreases pending(self.cx.len(), old(cache)@), 1nat,
    {
        let data = match self.cx.data(field.ty) {
            Ok(data) => data,
            Err(e) => return Err(e),
        };
        if data.has_opaque_types {
            self.check_type_for_ffi(cache, field.ty)
        } else {
            match self.cx.normalize_erasing_regions(field.ty) {
                Ok(field_ty) => self.check_type_for_ffi(cache, field_ty),
                Err(e) => Err(e),
            }
        }
    }

    /// Checks if the given `VariantDef`'s field types are "ffi-safe".
    pub fn check_variant_for_ffi(
        &self,
        cache: &mut HashSet<Ty>,
        ty: Ty,
        def: &AdtDef,
        variant: &VariantDef,
    ) -> (r: Result<FfiResult, CheckError>)
        ensures
            r == check_variant(*self.cx, self.mode, ty, *def, *variant, old(cache)@).result,
            final(cache)@ == check_variant(
                *self.cx,
                self.mode,
                ty,
                *def,
                *variant,
                old(cache)@,
            ).seen,
        decreases pending(self.cx.len(), old(cache)@), 2nat,
    {
        let ghost seen = cache@;
        if def.repr.transparent {
            // Can assume that at most one field is not a ZST, so only check
            // that field's type for FFI-safety.
            match transparent_newtype_field(variant) {
                Some(field) => {
                    return self.check_field_type_for_ffi(cache, field);
                },
                // All fields are ZSTs; this means that the type should behave
                // like (), which is FFI-unsafe
                None => {
                    return Ok(FfiResult::FfiUnsafe { ty, reason: Reason::StructZeroSized });
                },
            }
        }
        // We can't completely trust repr(C) markings; make sure the fields are
        // actually safe.
        let mut all_phantom = variant.fields.len() != 0;
        let mut i: usize = 0;
        while i < variant.fields.len()
            invariant
                i <= variant.fields@.len(),
                seen == old(cache)@,
                seen.subset_of(cache@),
                !def.repr.transparent,
                check_variant(*self.cx, self.mode, ty, *def, *variant, seen) == check_fields(
                    *self.cx,
                    self.mode,
                    ty,
                    *def,
                    variant.fields@,
                    i as int,
                    all_phantom,
                    cache@,
                ),
            decreases variant.fields.len() - i,
        {
            let ghost met = cache@;
            proof {
                lemma_pending_subset(self.cx.len(), seen, met);
                lemma_check_field_keeps_seen(
                    *self.cx,
                    self.mode,
                    variant.fields@[i as int],
                    met,
                );
            }
            let result = self.check_field_type_for_ffi(cache, &variant.fields[i]);
            assert(met.union(cache@) =~= cache@);
            match result {
                Ok(FfiResult::FfiSafe) => {
                    all_phantom = false;
                },
                Ok(FfiResult::FfiPhantom(_)) => {
                    if matches!(def.kind, AdtKind::Enum) {
                        return Ok(FfiResult::FfiUnsafe { ty, reason: Reason::EnumPhantomData });
                    }
                },
                r => return r,
            }
            i = i + 1;
        }
        if all_phantom {
            Ok(FfiResult::FfiPhantom(ty))
        } else {
            Ok(FfiResult::FfiSafe)
        }
    }

    /// Checks if the given struct, union or enum is "ffi-safe".
    fn check_adt_for_ffi(&self, cache: &mut HashSet<Ty>, ty: Ty, def: &AdtDef) -> (r: Result<
        FfiResult,
        CheckError,
    >)
        requires
            self.cx.described(ty),
            self.cx.kind_of(ty) == TyKind::Adt(*def),
        ensures
            r == follow_rule(
                *self.cx,
                self.mode,
                ty,
                adt_rule(*self.cx, self.mode, ty, *def),
                old(cache)@,
            ).result,
            final(cache)@ == follow_rule(
                *self.cx,
                self.mode,
                ty,
                adt_rule(*self.cx, self.mode, ty, *def),
                old(cache)@,
            ).seen,
        decreases pending(self.cx.len(), old(cache)@), 4nat,
    {
        if matches!(self.mode, CItemKind::Definition) {
            match def.boxed_ty {
                Some(boxed_ty) => {
                    let boxed = match self.cx.data(boxed_ty) {
                        Ok(boxed) => boxed,
                        Err(e) => return Err(e),
                    };
                    if boxed.is_sized {
                        return Ok(FfiResult::FfiSafe);
                    } else {
                        return Ok(FfiResult::FfiUnsafe { ty, reason: Reason::Box });
                    }
                },
                None => {},
            }
        }
        if def.is_phantom_data {
            return Ok(FfiResult::FfiPhantom(ty));
        }
        match def.kind {
            AdtKind::Struct | AdtKind::Union => {
                let is_struct = matches!(def.kind, AdtKind::Struct);
                if !def.repr.c && !def.repr.transparent {
                    return Ok(
                        FfiResult::FfiUnsafe {
                            ty,
                            reason: if is_struct {
                                Reason::StructLayout
                            } else {
                                Reason::UnionLayout
                            },
                        },
                    );
                }
                if def.variants.len() == 0 {
                    return Err(CheckError::NoVariant(ty));
                }
                let variant = &def.variants[0];
                if variant.is_field_list_non_exhaustive && !def.is_local {
                    return Ok(
                        FfiResult::FfiUnsafe {
                            ty,
                            reason: if is_struct {
                                Reason::StructNonExhaustive
                            } else {
                                Reason::UnionNonExhaustive
                            },
                        },
                    );
                }
                if variant.fields.len() == 0 {
                    return Ok(
                        FfiResult::FfiUnsafe {
                            ty,
                            reason: if is_struct {
                                Reason::StructFieldless
                            } else {
                                Reason::UnionFieldless
                            },
                        },
                    );
                }
                self.check_variant_for_ffi(cache, ty, def, variant)
            },
            AdtKind::Enum => self.check_enum_for_ffi(cache, ty, def),
        }
    }

    /// Checks if the given enum is "ffi-safe".
    fn check_enum_for_ffi(&self, cache: &mut HashSet<Ty>, ty: Ty, def: &AdtDef) -> (r: Result<
        FfiResult,
        CheckError,
    >)
        requires
            self.cx.described(ty),
            self.cx.kind_of(ty) == TyKind::Adt(*def),
        ensures
            r == follow_rule(
                *self.cx,
                self.mode,
                ty,
                enum_rule(*self.cx, self.mode, ty, *def),
                old(cache)@,
            ).result,
            final(cache)@ == follow_rule(
                *self.cx,
                self.mode,
                ty,
                enum_rule(*self.cx, self.mode, ty, *def),
                old(cache)@,
            ).seen,
        decreases pending(self.cx.len(), old(cache)@), 3nat,
    {
        let ghost seen = cache@;
        if def.variants.len() == 0 {
            // Empty enums are okay... although sort of useless.
            return Ok(FfiResult::FfiSafe);
        }
        // Check for a repr() attribute to specify the size of the
        // discriminant.
        if !def.repr.c && !def.repr.transparent && !def.repr.int {
            // Special-case types like `Option` of a function pointer.
            match repr_nullable_ptr(self.cx, ty, self.mode) {
                Ok(Some(_)) => {},
                Ok(None) => {
                    return Ok(FfiResult::FfiUnsafe { ty, reason: Reason::EnumNoRepresentation });
                },
                Err(e) => return Err(e),
            }
        }
        if def.is_variant_list_non_exhaustive && !def.is_local {
            return Ok(FfiResult::FfiUnsafe { ty, reason: Reason::EnumNonExhaustive });
        }
        // Check the contained variants.
        let mut i: usize = 0;
        while i < def.variants.len()
            invariant
                i <= def.variants@.len(),
                seen == old(cache)@,
                seen.subset_of(cache@),
                follow_rule(
                    *self.cx,
                    self.mode,
                    ty,
                    enum_rule(*self.cx, self.mode, ty, *def),
                    seen,
                ) == check_variants(*self.cx, self.mode, ty, *def, i as int, cache@),
            decreases def.variants.len() - i,
        {
            let variant = &def.variants[i];
            if variant.is_field_list_non_exhaustive && !variant.is_local {
                return Ok(FfiResult::FfiUnsafe { ty, reason: Reason::EnumNonExhaustiveVariant });
            }
            let ghost met = cache@;
            proof {
                lemma_pending_subset(self.cx.len(), seen, met);
                lemma_check_variant_keeps_seen(*self.cx, self.mode, ty, *def, *variant, met);
            }
            match self.check_variant_for_ffi(cache, ty, def, variant) {
                Ok(FfiResult::FfiSafe) => {},
                r => return r,
            }
            assert(met.union(cache@) =~= cache@);
            i = i + 1;
        }
        Ok(FfiResult::FfiSafe)
    }

    /// Checks if the given function pointer is "ffi-safe".
    fn check_fn_ptr_for_ffi(&self, cache: &mut HashSet<Ty>, ty: Ty, sig: &FnSig) -> (r: Result<
        FfiResult,
        CheckError,
    >)
        ensures
            r == follow_rule(
                *self.cx,
                self.mode,
                ty,
                fn_ptr_rule(*self.cx, ty, *sig),
                old(cache)@,
            ).result,
            final(cache)@ == follow_rule(
                *self.cx,
                self.mode,
                ty,
                fn_ptr_rule(*self.cx, ty, *sig),
                old(cache)@,
            ).seen,
        decreases pending(self.cx.len(), old(cache)@), 1nat,
    {
        let ghost seen = cache@;
        if self.is_internal_abi(sig.abi) {
            return Ok(FfiResult::FfiUnsafe { ty, reason: Reason::FnPtr });
        }
        let unit = match self.cx.is_unit(sig.output) {
            Ok(unit) => unit,
            Err(e) => return Err(e),
        };
        let ghost tys = if unit {
            sig.inputs@
        } else {
            seq![sig.output] + sig.inputs@
        };
        let ghost skipped: int = if unit {
            0
        } else {
            1
        };
        if !unit {
            proof {
                lemma_check_type_keeps_seen(*self.cx, self.mode, sig.output, seen);
            }
            match self.check_type_for_ffi(cache, sig.output) {
                Ok(FfiResult::FfiSafe) => {},
                r => return r,
            }
            assert(seen.union(cache@) =~= cache@);
        }
        let mut i: usize = 0;
        while i < sig.inputs.len()
            invariant
                i <= sig.inputs@.len(),
                seen == old(cache)@,
                seen.subset_of(cache@),
                0 <= skipped <= 1,
                tys.len() == sig.inputs@.len() + skipped,
                forall|j: int| 0 <= j < sig.inputs@.len() ==> tys[j + skipped] == sig.inputs@[j],
                follow_rule(*self.cx, self.mode, ty, fn_ptr_rule(*self.cx, ty, *sig), seen)
                    == check_all(*self.cx, self.mode, tys, i + skipped, cache@),
            decreases sig.inputs.len() - i,
        {
            let ghost met = cache@;
            proof {
                lemma_pending_subset(self.cx.len(), seen, met);
                lemma_check_type_keeps_seen(*self.cx, self.mode, sig.inputs@[i as int], met);
            }
            assert(tys[i + skipped] == sig.inputs@[i as int]);
            match self.check_type_for_ffi(cache, sig.inputs[i]) {
                Ok(FfiResult::FfiSafe) => {},
                r => return r,
            }
            assert(met.union(cache@) =~= cache@);
            i = i + 1;
        }
        Ok(FfiResult::FfiSafe)
    }

    /// Whether no foreign code can use the calling convention.
    pub fn is_internal_abi(&self, abi: AbiKind) -> (r: bool)
        ensures
            r == abi.spec_is_internal(),
    {
        abi.is_internal()
    }

    /// Checks if the given type is "ffi-safe" (has a stable, well-defined
    /// representation which can be exported to C code).
    pub fn check_type_for_ffi(&self, cache: &mut HashSet<Ty>, ty: Ty) -> (r: Result<
        FfiResult,
        CheckError,
    >)
        ensures
            r == check_type(*self.cx, self.mode, ty, old(cache)@).result,
            final(cache)@ == check_type(*self.cx, self.mode, ty, old(cache)@).seen,
        decreases pending(self.cx.len(), old(cache)@), 0nat,
    {
        let ghost seen = cache@;
        // Protect against infinite recursion, for example
        // `struct S(*mut S);`.
        if !cache.insert(ty) {
            assert(seen.insert(ty) =~= seen);
            return Ok(FfiResult::FfiSafe);
        }
        let data = match self.cx.data(ty) {
            Ok(data) => data,
            Err(e) => return Err(e),
        };
        proof {
            lemma_pending_insert(self.cx.len(), seen, ty);
        }
        match &data.kind {
            TyKind::Adt(def) => self.check_adt_for_ffi(cache, ty, def),
            TyKind::Char => Ok(FfiResult::FfiUnsafe { ty, reason: Reason::Char }),
            TyKind::Int(IntTy::I128) | TyKind::Uint(UintTy::U128) => Ok(
                FfiResult::FfiUnsafe { ty, reason: Reason::Bit128 },
            ),
            // Primitive types with a stable representation.
            TyKind::Bool | TyKind::Int(_) | TyKind::Uint(_) | TyKind::Float(_) | TyKind::Never => Ok(
                FfiResult::FfiSafe,
            ),
            TyKind::Slice(_) => Ok(FfiResult::FfiUnsafe { ty, reason: Reason::Slice }),
            TyKind::Dynamic => Ok(FfiResult::FfiUnsafe { ty, reason: Reason::Dyn }),
            TyKind::Str => Ok(FfiResult::FfiUnsafe { ty, reason: Reason::Str }),
            TyKind::Tuple(_) => Ok(FfiResult::FfiUnsafe { ty, reason: Reason::Tuple }),
            TyKind::RawPtr(pointer) => {
                let pointee = match self.cx.data(pointer.ty) {
                    Ok(pointee) => pointee,
                    Err(e) => return Err(e),
                };
                if matches!(self.mode, CItemKind::Definition) && pointee.is_sized {
                    Ok(FfiResult::FfiSafe)
                } else if pointee.kind.is_unit() {
                    Ok(FfiResult::FfiSafe)
                } else {
                    self.check_type_for_ffi(cache, pointer.ty)
                }
            },
            TyKind::Ref(pointer) => {
                let pointee = match self.cx.data(pointer.ty) {
                    Ok(pointee) => pointee,
                    Err(e) => return Err(e),
                };
                if matches!(self.mode, CItemKind::Definition) && pointee.is_sized {
                    Ok(FfiResult::FfiSafe)
                } else {
                    self.check_type_for_ffi(cache, pointer.ty)
                }
            },
            TyKind::Array(inner_ty) => self.check_type_for_ffi(cache, *inner_ty),
            TyKind::FnPtr(sig) => self.check_fn_ptr_for_ffi(cache, ty, sig),
            TyKind::Foreign => Ok(FfiResult::FfiSafe),
            // While opaque types are checked for earlier, if a projection in a struct field
            // normalizes to an opaque type, then it will reach this branch.
            TyKind::Alias(AliasKind::Opaque) => Ok(
                FfiResult::FfiUnsafe { ty, reason: Reason::Opaque },
            ),
            // Functions with a foreign ABI can have type parameters, which may or may not be
            // FFI-safe, so they are currently ignored for the purposes of this lint.
            TyKind::Param | TyKind::Alias(AliasKind::Projection) => {
                if matches!(self.mode, CItemKind::Definition) {
                    Ok(FfiResult::FfiSafe)
                } else {
                    Err(CheckError::UnexpectedType(ty))
                }
            },
            TyKind::Infer
            | TyKind::Bound
            | TyKind::Error
            | TyKind::Closure
            | TyKind::Generator
            | TyKind::GeneratorWitness
            | TyKind::Placeholder
            | TyKind::FnDef => Err(CheckError::UnexpectedType(ty)),
        }
    }

    /// Records that the type `ty`, written at `sp`, is improper.
    pub fn emit_ffi_unsafe_type_lint(&mut self, ty: Ty, sp: &str, reason: Reason) -> (r: Result<
        (),
        CheckError,
    >)
        ensures
            final(self).cx == old(self).cx,
            final(self).mode == old(self).mode,
            r == match old(self).cx.lookup(ty) {
                Ok(_) => Ok(()),
                Err(e) => Err(e),
            },
            r is Err ==> final(self).errors@ == old(self).errors@,
            r is Ok ==> {
                &&& old(self).errors@.is_prefix_of(final(self).errors@)
                &&& observations(final(self).errors@) == observations(old(self).errors@).push(
                    observation(*old(self).cx, ty, sp@, reason),
                )
            },
    {
        let data = match self.cx.data(ty) {
            Ok(data) => data,
            Err(e) => return Err(e),
        };
        let obj_rep = ObservedImproperType {
            discriminant: tykind_discriminant(&data.kind),
            str_rep: data.str_rep.clone(),
            location: sp.to_owned(),
            reason: reason.code(),
        };
        self.errors.push(obj_rep);
        assert(observations(self.errors@) =~= observations(old(self).errors@).push(
            observation(*old(self).cx, ty, sp@, reason),
        ));
        Ok(())
    }

    /// Checks if the type is an array and records that as improper.
    pub fn check_for_array_ty(&mut self, sp: &str, ty: Ty) -> (r: Result<bool, CheckError>)
        ensures
            final(self).cx == old(self).cx,
            final(self).mode == old(self).mode,
            r == match old(self).cx.lookup(ty) {
                Ok(data) => Ok(data.kind is Array),
                Err(e) => Err(e),
            },
            r != Ok::<bool, CheckError>(true) ==> final(self).errors@ == old(self).errors@,
            r == Ok::<bool, CheckError>(true) ==> {
                &&& old(self).errors@.is_prefix_of(final(self).errors@)
                &&& observations(final(self).errors@) == observations(old(self).errors@).push(
                    observation(*old(self).cx, ty, sp@, Reason::Array),
                )
            },
    {
        let data = match self.cx.data(ty) {
            Ok(data) => data,
            Err(e) => return Err(e),
        };
        if let TyKind::Array(_) = &data.kind {
            match self.emit_ffi_unsafe_type_lint(ty, sp, Reason::Array) {
                Ok(()) => Ok(true),
                Err(e) => Err(e),
            }
        } else {
            Ok(false)
        }
    }

    /// Checks if an opaque type occurs in the type and records the first one as
    /// improper.
    pub fn check_for_opaque_ty(&mut self, sp: &str, ty: Ty) -> (r: Result<bool, CheckError>)
        ensures
            final(self).cx == old(self).cx,
            final(self).mode == old(self).mode,
            r == match opaque_in(*old(self).cx, ty) {
                Ok(opaque) => Ok(opaque is Some),
                Err(e) => Err(e),
            },
            r != Ok::<bool, CheckError>(true) ==> final(self).errors@ == old(self).errors@,
            r == Ok::<bool, CheckError>(true) ==> {
                &&& old(self).errors@.is_prefix_of(final(self).errors@)
                &&& observations(final(self).errors@) == observations(old(self).errors@).push(
                    observation(
                        *old(self).cx,
                        opaque_in(*old(self).cx, ty)->Ok_0->0,
                        sp@,
                        Reason::Opaque,
                    ),
                )
            },
    {
        match find_opaque(self.cx, ty) {
            Ok(Some(opaque)) => {
                proof {
                    lemma_opaque_below_finds(
                        *self.cx,
                        self.cx.spec_normalize(ty)->Ok_0,
                        Set::empty(),
                    );
                }
                match self.emit_ffi_unsafe_type_lint(opaque, sp, Reason::Opaque) {
                    Ok(()) => Ok(true),
                    Err(e) => Err(e),
                }
            },
            Ok(None) => Ok(false),
            Err(e) => Err(e),
        }
    }

    /// Checks the type `ty`, written at `sp`, and records what is improper in it.
    pub fn check_type_for_ffi_and_report_errors(
        &mut self,
        sp: &str,
        ty: Ty,
        is_static: bool,
        is_return_type: bool,
    ) -> (r: Result<(), CheckError>)
        ensures
            final(self).cx == old(self).cx,
            final(self).mode == old(self).mode,
            match report(*old(self).cx, old(self).mode, sp@, ty, is_static, is_return_type) {
                Ok(more) => {
                    &&& r is Ok
                    &&& old(self).errors@.is_prefix_of(final(self).errors@)
                    &&& observations(final(self).errors@) == observations(old(self).errors@) + more
                },
                Err(e) => r == Err::<(), CheckError>(e) && final(self).errors@ == old(
                    self,
                ).errors@,
            },
    {
        proof {
            lemma_finding_justified(*self.cx, self.mode, ty, is_static, is_return_type);
        }
        // Opaque types come first: where one occurs in what the type normalizes to, it is
        // all that is reported.
        match self.check_for_opaque_ty(sp, ty) {
            // We've already emitted an error due to an opaque type.
            Ok(true) => return Ok(()),
            Ok(false) => {},
            Err(e) => return Err(e),
        }
        // It is only OK to use this function because foreign functions cannot have
        // any generic types right now:
        let ty = match self.cx.normalize_erasing_regions(ty) {
            Ok(ty) => ty,
            Err(e) => return Err(e),
        };
        // C doesn't really support passing arrays by value - the only way to pass an array by value
        // is through a struct. So, first test that the top level isn't an array, and then
        // recursively check the types inside.
        if !is_static {
            match self.check_for_array_ty(sp, ty) {
                Ok(true) => return Ok(()),
                Ok(false) => {},
                Err(e) => return Err(e),
            }
        }
        // Don't report FFI errors for unit return types. This check exists here, and not in
        // `check_foreign_fn` (where it would make more sense) so that normalization has definitely
        // happened.
        let data = match self.cx.data(ty) {
            Ok(data) => data,
            Err(e) => return Err(e),
        };
        if is_return_type && data.kind.is_unit() {
            return Ok(());
        }
        let mut cache: HashSet<Ty> = HashSet::new();
        match self.check_type_for_ffi(&mut cache, ty) {
            Ok(FfiResult::FfiSafe) => Ok(()),
            Ok(FfiResult::FfiPhantom(phantom)) => self.emit_ffi_unsafe_type_lint(
                phantom,
                sp,
                Reason::OnlyPhantomData,
            ),
            Ok(FfiResult::FfiUnsafe { ty: culprit, reason }) => {
                // If `ty` is a `repr(transparent)` newtype, and the non-zero-sized type is a generic
                // argument, which after substitution, is `()`, then this branch can be hit.
                if is_return_type {
                    match self.cx.is_unit(culprit) {
                        Ok(true) => return Ok(()),
                        Ok(false) => {},
                        Err(e) => return Err(e),
                    }
                }
                self.emit_ffi_unsafe_type_lint(culprit, sp, reason)
            },
            Err(e) => Err(e),
        }
    }

    /// Checks the inputs and the output of a function. Where the check fails,
    /// nothing is recorded.
    pub fn check_foreign_fn(&mut self, sig: &FnSig, decl: &FnDecl) -> (r: Result<(), CheckError>)
        ensures
            final(self).cx == old(self).cx,
            final(self).mode == old(self).mode,
            match fn_report(*old(self).cx, old(self).mode, *sig, *decl) {
                Ok(more) => {
                    &&& r is Ok
                    &&& old(self).errors@.is_prefix_of(final(self).errors@)
                    &&& observations(final(self).errors@) == observations(old(self).errors@) + more
                },
                Err(e) => r == Err::<(), CheckError>(e) && final(self).errors@ == old(
                    self,
                ).errors@,
            },
    {
        let before = self.errors.len();
        let mut i: usize = 0;
        assert(observations(self.errors@) + Seq::empty() =~= observations(self.errors@));
        while i < sig.inputs.len() && i < decl.inputs.len()
            invariant
                i <= input_count(*sig, *decl),
                before == old(self).errors@.len(),
                self.cx == old(self).cx,
                self.mode == old(self).mode,
                old(self).errors@.is_prefix_of(self.errors@),
                inputs_report(*self.cx, self.mode, *sig, *decl, i as nat) is Ok,
                observations(self.errors@) == observations(old(self).errors@) + inputs_report(
                    *self.cx,
                    self.mode,
                    *sig,
                    *decl,
                    i as nat,
                )->Ok_0,
            decreases sig.inputs.len() - i,
        {
            match self.check_type_for_ffi_and_report_errors(
                decl.inputs[i].as_str(),
                sig.inputs[i],
                false,
                false,
            ) {
                Ok(()) => {},
                Err(e) => {
                    self.errors.truncate(before);
                    proof {
                        lemma_inputs_report_fails(
                            *self.cx,
                            self.mode,
                            *sig,
                            *decl,
                            (i + 1) as nat,
                            input_count(*sig, *decl),
                        );
                    }
                    return Err(e);
                },
            }
            i = i + 1;
        }
        match &decl.output {
            Some(sp) => {
                match self.check_type_for_ffi_and_report_errors(
                    sp.as_str(),
                    sig.output,
                    false,
                    true,
                ) {
                    Ok(()) => Ok(()),
                    Err(e) => {
                        self.errors.truncate(before);
                        Err(e)
                    },
                }
            },
            None => Ok(()),
        }
    }

    /// Checks the type of a static item.
    pub fn check_foreign_static(&mut self, ty: Ty, span: &str) -> (r: Result<(), CheckError>)
        ensures
            final(self).cx == old(self).cx,
            final(self).mode == old(self).mode,
            match report(*old(self).cx, old(self).mode, span@, ty, true, false) {
                Ok(more) => {
                    &&& r is Ok
                    &&& old(self).errors@.is_prefix_of(final(self).errors@)
                    &&& observations(final(self).errors@) == observations(old(self).errors@) + more
                },
                Err(e) => r == Err::<(), CheckError>(e) && final(self).errors@ == old(
                    self,
                ).errors@,
            },
    {
        self.check_type_for_ffi_and_report_errors(span, ty, true, false)
    }
}

} // verus!
