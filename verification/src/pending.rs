//! The measure by which walks over the table of types end: how many declared
//! types a walk has not met yet.

use vstd::prelude::*;

use crate::ty::Ty;

verus! {

/// How many of the first `n` types are not in `met`.
pub open spec fn pending(n: nat, met: Set<Ty>) -> nat
    decreases n,
{
    if n == 0 {
        0
    } else {
        pending((n - 1) as nat, met) + if met.contains((n - 1) as usize) {
            0nat
        } else {
            1nat
        }
    }
}

/// Meeting more types leaves no more of them pending.
pub proof fn lemma_pending_subset(n: nat, met: Set<Ty>, more: Set<Ty>)
    requires
        met.subset_of(more),
    ensures
        pending(n, more) <= pending(n, met),
    decreases n,
{
    if n > 0 {
        lemma_pending_subset((n - 1) as nat, met, more);
    }
}

/// Meeting the types of a second walk as well leaves no more of them pending.
pub proof fn lemma_pending_union(n: nat, met: Set<Ty>, others: Set<Ty>)
    ensures
        pending(n, met.union(others)) <= pending(n, met),
{
    lemma_pending_subset(n, met, met.union(others));
}

/// Meeting a declared type for the first time leaves fewer of them pending.
pub proof fn lemma_pending_insert(n: nat, met: Set<Ty>, ty: Ty)
    requires
        ty < n,
        n <= usize::MAX + 1,
        !met.contains(ty),
    ensures
        pending(n, met.insert(ty)) < pending(n, met),
    decreases n,
{
    let last = (n - 1) as usize;
    if last == ty {
        lemma_pending_subset((n - 1) as nat, met, met.insert(ty));
    } else {
        lemma_pending_insert((n - 1) as nat, met, ty);
    }
}

} // verus!
