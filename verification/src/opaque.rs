//! The search for an opaque type in a type.

use vstd::prelude::*;

use std::collections::HashSet;

use crate::error::CheckError;
use crate::pending::{lemma_pending_insert, pending};
use crate::ty::{AliasKind, Ty, TyCtxt, TyKind};

verus! {

/// Whether the described type `ty` is itself opaque.
pub open spec fn is_opaque(tcx: TyCtxt, ty: Ty) -> bool {
    tcx.kind_of(ty) matches TyKind::Alias(AliasKind::Opaque)
}

/// The first opaque type met in `ty`, on the way down from the types in `path`,
/// which it is a component of. Types that are marked as free of opaque types
/// are passed over.
pub open spec fn opaque_below(tcx: TyCtxt, ty: Ty, path: Set<Ty>) -> Result<Option<Ty>, CheckError>
    decreases pending(tcx.len(), path), 0nat, 0nat,
{
    if !tcx.described(ty) {
        Err(CheckError::Undescribed(ty))
    } else if path.contains(ty) {
        Err(CheckError::InfiniteType(ty))
    } else if !tcx.data_of(ty).has_opaque_types {
        Ok(None)
    } else if is_opaque(tcx, ty) {
        Ok(Some(ty))
    } else {
        proof {
            lemma_pending_insert(tcx.len(), path, ty);
        }
        opaque_among(tcx, tcx.data_of(ty).components@, 0, path.insert(ty))
    }
}

/// The first opaque type met in the types from the `i`th on.
pub open spec fn opaque_among(tcx: TyCtxt, tys: Seq<Ty>, i: int, path: Set<Ty>) -> Result<
    Option<Ty>,
    CheckError,
>
    decreases pending(tcx.len(), path), 1nat, tys.len() - i,
{
    if i < 0 || i >= tys.len() {
        Ok(None)
    } else {
        match opaque_below(tcx, tys[i], path) {
            Ok(None) => opaque_among(tcx, tys, i + 1, path),
            r => r,
        }
    }
}

/// The first opaque type met in what `ty` normalizes to.
pub open spec fn opaque_in(tcx: TyCtxt, ty: Ty) -> Result<Option<Ty>, CheckError> {
    match tcx.spec_normalize(ty) {
        Err(e) => Err(e),
        Ok(normalized) => opaque_below(tcx, normalized, Set::empty()),
    }
}

fn find_opaque_below(tcx: &TyCtxt, ty: Ty, path: &mut HashSet<Ty>) -> (r: Result<
    Option<Ty>,
    CheckError,
>)
    ensures
        r == opaque_below(*tcx, ty, old(path)@),
        r is Ok ==> final(path)@ == old(path)@,
    decreases pending(tcx.len(), old(path)@),
{
    let data = match tcx.data(ty) {
        Ok(data) => data,
        Err(e) => return Err(e),
    };
    if path.contains(&ty) {
        return Err(CheckError::InfiniteType(ty));
    }
    if !data.has_opaque_types {
        return Ok(None);
    }
    if matches!(data.kind, TyKind::Alias(AliasKind::Opaque)) {
        return Ok(Some(ty));
    }
    let ghost met = path@;
    proof {
        lemma_pending_insert(tcx.len(), met, ty);
    }
    path.insert(ty);
    let tys = &data.components;
    let mut found: Option<Ty> = None;
    let mut i: usize = 0;
    while i < tys.len() && found.is_none()
        invariant
            i <= tys@.len(),
            path@ == met.insert(ty),
            pending(tcx.len(), met.insert(ty)) < pending(tcx.len(), old(path)@),
            opaque_below(*tcx, ty, old(path)@) == opaque_among(
                *tcx,
                tys@,
                0,
                met.insert(ty),
            ),
            opaque_among(*tcx, tys@, 0, met.insert(ty)) == if found is Some {
                Ok(found)
            } else {
                opaque_among(*tcx, tys@, i as int, met.insert(ty))
            },
        decreases tys.len() - i,
    {
        match find_opaque_below(tcx, tys[i], path) {
            Ok(opaque) => {
                found = opaque;
            },
            Err(e) => return Err(e),
        }
        i = i + 1;
    }
    path.remove(&ty);
    assert(met.insert(ty).remove(ty) =~= met);
    Ok(found)
}

/// The first opaque type met in what `ty` normalizes to.
pub fn find_opaque(tcx: &TyCtxt, ty: Ty) -> (r: Result<Option<Ty>, CheckError>)
    ensures
        r == opaque_in(*tcx, ty),
{
    let mut path: HashSet<Ty> = HashSet::new();
    match tcx.normalize_erasing_regions(ty) {
        Ok(normalized) => find_opaque_below(tcx, normalized, &mut path),
        Err(e) => Err(e),
    }
}

/// Whether types are marked as the types that they are made of have it: the
/// described type `ty` is marked exactly if it is opaque or one of its
/// components is marked.
pub open spec fn marks_agree(tcx: TyCtxt) -> bool {
    forall|ty: Ty| #[trigger]
        tcx.described(ty) ==> (tcx.data_of(ty).has_opaque_types <==> is_opaque(tcx, ty) || exists|
            i: int,
        |
            0 <= i < tcx.data_of(ty).components@.len() && tcx.data_of(
                #[trigger] tcx.data_of(ty).components@[i],
            ).has_opaque_types)
}

/// What the search finds is opaque, and where the marks agree it finds
/// something exactly if the type is marked.
pub proof fn lemma_opaque_below_finds(tcx: TyCtxt, ty: Ty, path: Set<Ty>)
    ensures
        opaque_below(tcx, ty, path) matches Ok(Some(found)) ==> tcx.described(found) && is_opaque(
            tcx,
            found,
        ),
        marks_agree(tcx) && opaque_below(tcx, ty, path) is Ok ==> (opaque_below(
            tcx,
            ty,
            path,
        )->Ok_0 is Some <==> tcx.data_of(ty).has_opaque_types),
    decreases pending(tcx.len(), path), 0nat, 0nat,
{
    if tcx.described(ty) && !path.contains(ty) && tcx.data_of(ty).has_opaque_types && !is_opaque(
        tcx,
        ty,
    ) {
        lemma_pending_insert(tcx.len(), path, ty);
        lemma_opaque_among_finds(tcx, tcx.data_of(ty).components@, 0, path.insert(ty));
    }
}

proof fn lemma_opaque_among_finds(tcx: TyCtxt, tys: Seq<Ty>, i: int, path: Set<Ty>)
    requires
        0 <= i <= tys.len(),
    ensures
        opaque_among(tcx, tys, i, path) matches Ok(Some(found)) ==> tcx.described(found)
            && is_opaque(tcx, found),
        marks_agree(tcx) && opaque_among(tcx, tys, i, path) is Ok ==> (opaque_among(
            tcx,
            tys,
            i,
            path,
        )->Ok_0 is Some <==> exists|j: int|
            i <= j < tys.len() && tcx.data_of(#[trigger] tys[j]).has_opaque_types),
    decreases pending(tcx.len(), path), 1nat, tys.len() - i,
{
    if i < tys.len() {
        lemma_opaque_below_finds(tcx, tys[i], path);
        lemma_opaque_among_finds(tcx, tys, i + 1, path);
    }
}

} // verus!
