//! What holds of the record in every state that the lint leads to.

use vstd::prelude::*;

use crate::error::CheckError;
use crate::lint::{
    crate_outcome, fn_outcome, foreign_item_outcome, foreign_item_type, lemma_fn_listed,
    lemma_foreign_item_counted, FnKind, ForeignItemKind, Lint, SpecAbi,
};
use crate::report::FnDecl;
use crate::store::{abi_count, empty_store, ForeignItemType, Store};
use crate::ty::{FnSig, TyCtxt};

verus! {

/// One of the calls that the lint is made of.
pub enum Call {
    Crate { lints: Seq<Lint> },
    Fn { tcx: TyCtxt, lints: Seq<Lint>, kind: FnKind, sig: FnSig, decl: FnDecl },
    ForeignItem { tcx: TyCtxt, lints: Seq<Lint>, abi: SpecAbi, item: ForeignItemKind },
}

/// The record after a call, where the call does not fail.
pub open spec fn outcome(store: Store, call: Call) -> Result<Store, CheckError> {
    match call {
        Call::Crate { lints } => crate_outcome(store, lints),
        Call::Fn { tcx, lints, kind, sig, decl } => fn_outcome(store, tcx, lints, kind, sig, decl),
        Call::ForeignItem { tcx, lints, abi, item: kind } => foreign_item_outcome(
            store,
            tcx,
            lints,
            abi,
            kind,
        ),
    }
}

/// The record after a call. A call that fails changes nothing.
pub open spec fn after(store: Store, call: Call) -> Store {
    match outcome(store, call) {
        Ok(next) => next,
        Err(_) => store,
    }
}

/// The record after a number of calls, in order.
pub open spec fn after_all(store: Store, calls: Seq<Call>) -> Store
    decreases calls.len(),
{
    if calls.len() == 0 {
        store
    } else {
        after(after_all(store, calls.drop_last()), calls.last())
    }
}

/// Of the functions of the crate, as many are listed as are counted: those in
/// which something is improper.
pub proof fn lemma_rust_functions_all_listed(calls: Seq<Call>)
    ensures
        after_all(empty_store(), calls).rust_functions.total_items == after_all(
            empty_store(),
            calls,
        ).rust_functions.item_error_counts.len(),
    decreases calls.len(),
{
    if calls.len() > 0 {
        lemma_rust_functions_all_listed(calls.drop_last());
        let before = after_all(empty_store(), calls.drop_last());
        if outcome(before, calls.last()) is Ok {
            match calls.last() {
                Call::Crate { .. } => {},
                Call::Fn { tcx, lints, kind, sig, decl } => lemma_fn_listed(
                    before,
                    tcx,
                    lints,
                    kind,
                    sig,
                    decl,
                ),
                Call::ForeignItem { tcx, lints, abi, item: kind } => {
                    if let Some(item_type) = foreign_item_type(kind) {
                        lemma_foreign_item_counted(before, tcx, lints, abi, kind, item_type);
                    }
                },
            }
        }
    }
}

/// The sum of the counts of the calling conventions that are not in `internal`.
pub open spec fn sum_outside(abis: Map<Seq<char>, nat>, internal: Set<Seq<char>>) -> nat
    decreases abis.dom().len(),
{
    if !abis.dom().finite() || abis.dom().is_empty() {
        0
    } else {
        let name = abis.dom().choose();
        count_outside(abis, internal, name) + sum_outside(abis.remove(name), internal)
    }
}

/// The count of a calling convention that is not in `internal`, and zero for any
/// other.
pub open spec fn count_outside(
    abis: Map<Seq<char>, nat>,
    internal: Set<Seq<char>>,
    name: Seq<char>,
) -> nat {
    if internal.contains(name) {
        0
    } else {
        abis[name]
    }
}

/// The sum does not depend on which calling convention is taken out first.
proof fn lemma_sum_outside_remove(
    abis: Map<Seq<char>, nat>,
    internal: Set<Seq<char>>,
    name: Seq<char>,
)
    requires
        abis.dom().finite(),
        abis.contains_key(name),
    ensures
        sum_outside(abis, internal) == count_outside(abis, internal, name) + sum_outside(
            abis.remove(name),
            internal,
        ),
    decreases abis.dom().len(),
{
    let first = abis.dom().choose();
    if first != name {
        lemma_sum_outside_remove(abis.remove(first), internal, name);
        lemma_sum_outside_remove(abis.remove(name), internal, first);
        assert(abis.remove(first).remove(name) =~= abis.remove(name).remove(first));
    }
}

/// One more item of a calling convention adds one to the sum, or nothing if the
/// calling convention is in `internal`.
proof fn lemma_sum_outside_count(
    abis: Map<Seq<char>, nat>,
    internal: Set<Seq<char>>,
    name: Seq<char>,
    count: nat,
)
    requires
        abis.dom().finite(),
        count == if abis.contains_key(name) {
            abis[name]
        } else {
            0
        },
    ensures
        sum_outside(abis.insert(name, count + 1), internal) == sum_outside(abis, internal)
            + if internal.contains(name) {
            0nat
        } else {
            1nat
        },
{
    let more = abis.insert(name, count + 1);
    lemma_sum_outside_remove(more, internal, name);
    if abis.contains_key(name) {
        lemma_sum_outside_remove(abis, internal, name);
        assert(more.remove(name) =~= abis.remove(name));
    } else {
        assert(more.remove(name) =~= abis);
    }
}

/// Whether the calling convention of a foreign item is one of Rust's own exactly
/// if its name is in `internal`.
pub open spec fn name_tells_kind(call: Call, internal: Set<Seq<char>>) -> bool {
    call matches Call::ForeignItem { abi, .. } ==> (abi.kind.spec_is_internal()
        <==> internal.contains(abi.name@))
}

/// As many foreign functions are counted as items, and as many static items, as
/// are counted under the calling conventions that are not Rust's own, whose names
/// are in `internal`.
pub proof fn lemma_foreign_items_all_counted(
    calls: Seq<Call>,
    internal: Set<Seq<char>>,
    item_type: ForeignItemType,
)
    requires
        forall|i: int| 0 <= i < calls.len() ==> name_tells_kind(#[trigger] calls[i], internal),
        item_type !is RustFn,
    ensures
        ({
            let tally = after_all(empty_store(), calls).tally(item_type);
            &&& tally.abis.dom().finite()
            &&& tally.total_items == sum_outside(tally.abis, internal)
        }),
    decreases calls.len(),
{
    if calls.len() > 0 {
        let fewer = calls.drop_last();
        let call = calls.last();
        assert forall|i: int| 0 <= i < fewer.len() implies name_tells_kind(
            #[trigger] fewer[i],
            internal,
        ) by {
            assert(fewer[i] == calls[i]);
        }
        lemma_foreign_items_all_counted(fewer, internal, item_type);
        let before = after_all(empty_store(), fewer);
        assert(name_tells_kind(calls[calls.len() - 1], internal));
        if let Call::ForeignItem { abi, .. } = call {
            let tally = before.tally(item_type);
            lemma_sum_outside_count(
                tally.abis,
                internal,
                abi.name@,
                abi_count(tally, abi.name@),
            );
        }
    }
}

} // verus!
