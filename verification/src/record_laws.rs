//! What the record holds after an item, in terms of what was reported of the item.

use vstd::prelude::*;

use crate::error::CheckError;
use crate::lint::{
    crate_outcome, fn_outcome, foreign_item_outcome, lemma_lint_disabled, lemma_lint_registered,
    max_errors, FnKind, ForeignItemKind, Level, Lint, SpecAbi,
};
use crate::nullable::CItemKind;
use crate::report::{
    fn_report, observations, report, FnDecl, Observation, ObservedImproperType,
};
use crate::store::{
    count_abi, count_below, empty_store, foreign_error, item_record, lemma_counts_complete, lemma_locations_of,
    lemma_register_all, locations_of, record_item, register_all, unquoted, valid_store, ErrorCount,
    FfickleLate, ForeignError, ForeignItemType, ForeignTypeError, ItemErrorCounts, ItemRecord,
    Store, Tally,
};
use crate::ty::{AbiKind, FnSig, Ty, TyCtxt};

verus! {

/// The quotation marks, and nothing else, are taken out of a text.
pub proof fn lemma_unquoted_keeps_the_rest(s: Seq<char>)
    ensures
        unquoted(s) == s.filter(|c: char| c != '"'),
    decreases s.len(),
{
    reveal(Seq::filter);
    if s.len() > 0 {
        lemma_unquoted_keeps_the_rest(s.drop_last());
    }
}

/// Whether an observation in an item, whose calling convention is printed as
/// `display`, makes an error: the two say the same of the type, and the error names
/// the calling convention without quotation marks.
pub open spec fn makes(observed: Observation, display: Seq<char>, error: ForeignError) -> bool {
    &&& error.discriminant == observed.discriminant
    &&& error.str_rep == observed.str_rep
    &&& error.reason == observed.reason
    &&& error.abi == display.filter(|c: char| c != '"')
}

proof fn lemma_makes(observed: Observation, display: Seq<char>, error: ForeignError)
    ensures
        makes(observed, display, error) <==> foreign_error(observed, display) == error,
{
    lemma_unquoted_keeps_the_rest(display);
}

/// Which observations make an error.
pub open spec fn making(display: Seq<char>, error: ForeignError) -> spec_fn(Observation) -> bool {
    |observed: Observation| makes(observed, display, error)
}

/// Where an error was observed, in order.
pub open spec fn places_of(
    observed: Seq<Observation>,
    display: Seq<char>,
    error: ForeignError,
) -> Seq<Seq<char>> {
    observed.filter(making(display, error)).map_values(|o: Observation| o.location)
}

proof fn lemma_places_of(observed: Seq<Observation>, display: Seq<char>, error: ForeignError)
    ensures
        locations_of(observed, display, error) == places_of(observed, display, error),
    decreases observed.len(),
{
    reveal(Seq::filter);
    let kept = observed.filter(making(display, error));
    if observed.len() > 0 {
        lemma_places_of(observed.drop_last(), display, error);
        lemma_makes(observed.last(), display, error);
        let before = observed.drop_last().filter(making(display, error));
        assert(places_of(observed, display, error) =~= if makes(observed.last(), display, error) {
            places_of(observed.drop_last(), display, error).push(observed.last().location)
        } else {
            places_of(observed.drop_last(), display, error)
        });
    } else {
        assert(places_of(observed, display, error) =~= Seq::empty());
    }
}

/// Whether an error is among those observed.
pub open spec fn is_observed(
    observed: Seq<Observation>,
    display: Seq<char>,
    error: ForeignError,
) -> bool {
    exists|k: int| 0 <= k < observed.len() && makes(#[trigger] observed[k], display, error)
}

/// Whether the `k`th observation is the first that makes an error.
pub open spec fn is_discovery(
    observed: Seq<Observation>,
    display: Seq<char>,
    error: ForeignError,
    k: int,
) -> bool {
    &&& 0 <= k < observed.len()
    &&& makes(observed[k], display, error)
    &&& forall|j: int| 0 <= j < k ==> !makes(#[trigger] observed[j], display, error)
}

/// Whether the error that an observation makes has a number.
pub open spec fn has_number(
    errors: Seq<ForeignError>,
    observed: Observation,
    display: Seq<char>,
) -> bool {
    exists|id: int| 0 <= id < errors.len() && makes(observed, display, #[trigger] errors[id])
}

/// Whether the numbered errors `known` have become `errors` by the observations in
/// an item: those known keep their numbers, every error observed has one number,
/// and the new ones are numbered in the order of their discovery.
pub open spec fn numbered(
    known: Seq<ForeignError>,
    errors: Seq<ForeignError>,
    observed: Seq<Observation>,
    display: Seq<char>,
) -> bool {
    &&& known.len() <= errors.len()
    &&& forall|id: int| 0 <= id < known.len() ==> #[trigger] errors[id] == known[id]
    &&& forall|a: int, b: int|
        0 <= a < b < errors.len() ==> #[trigger] errors[a] != #[trigger] errors[b]
    &&& forall|k: int|
        0 <= k < observed.len() ==> has_number(errors, #[trigger] observed[k], display)
    &&& forall|id: int|
        known.len() <= id < errors.len() ==> is_observed(
            observed,
            display,
            #[trigger] errors[id],
        )
    &&& forall|a: int, b: int, j: int, k: int|
        known.len() <= a < b < errors.len() && #[trigger] is_discovery(
            observed,
            display,
            errors[a],
            j,
        ) && #[trigger] is_discovery(observed, display, errors[b], k) ==> j < k
}

proof fn lemma_numbered(known: Seq<ForeignError>, observed: Seq<Observation>, display: Seq<char>)
    requires
        known.no_duplicates(),
    ensures
        numbered(known, register_all(known, observed, display), observed, display),
    decreases observed.len(),
{
    let errors = register_all(known, observed, display);
    lemma_register_all(known, observed, display);
    assert forall|k: int| 0 <= k < observed.len() implies has_number(
        errors,
        #[trigger] observed[k],
        display,
    ) by {
        let e = foreign_error(observed[k], display);
        assert(errors.contains(e));
        let id = choose|id: int| 0 <= id < errors.len() && errors[id] == e;
        lemma_makes(observed[k], display, errors[id]);
    }
    if observed.len() == 0 {
        assert(errors == known);
    } else {
        let fewer = observed.drop_last();
        let before = register_all(known, fewer, display);
        let last = observed.len() - 1;
        lemma_numbered(known, fewer, display);
        lemma_register_all(known, fewer, display);
        assert forall|id: int| 0 <= id < before.len() implies #[trigger] errors[id]
            == before[id] by {}
        // An error discovered among the earlier observations is discovered there.
        assert forall|e: ForeignError, k: int|
            0 <= k < last implies #[trigger] is_discovery(observed, display, e, k)
            == is_discovery(fewer, display, e, k) by {
            assert(fewer[k] == observed[k]);
            assert(forall|j: int| 0 <= j < k ==> #[trigger] fewer[j] == observed[j]);
            if is_discovery(fewer, display, e, k) {
                assert forall|j: int| 0 <= j < k implies !makes(
                    #[trigger] observed[j],
                    display,
                    e,
                ) by {
                    assert(!makes(fewer[j], display, e));
                }
            }
            if is_discovery(observed, display, e, k) {
                assert forall|j: int| 0 <= j < k implies !makes(
                    #[trigger] fewer[j],
                    display,
                    e,
                ) by {
                    assert(!makes(observed[j], display, e));
                }
            }
        }
        // The last observation discovers an error exactly if the error is new.
        if errors.len() > before.len() {
            let e = errors[before.len() as int];
            lemma_makes(observed[last], display, e);
            assert forall|j: int| 0 <= j < last implies !makes(
                #[trigger] observed[j],
                display,
                e,
            ) by {
                lemma_makes(observed[j], display, e);
                assert(fewer[j] == observed[j]);
                assert(before.contains(foreign_error(fewer[j], display)));
            }
            assert(is_discovery(observed, display, e, last));
        }
        assert forall|id: int| known.len() <= id < errors.len() implies is_observed(
            observed,
            display,
            #[trigger] errors[id],
        ) by {
            if id < before.len() {
                assert(is_observed(fewer, display, before[id]));
                let k = choose|k: int|
                    0 <= k < fewer.len() && makes(#[trigger] fewer[k], display, before[id]);
                assert(makes(observed[k], display, errors[id]));
            } else {
                assert(makes(observed[last], display, errors[id]));
            }
        }
        assert forall|a: int, b: int, j: int, k: int|
            known.len() <= a < b < errors.len() && #[trigger] is_discovery(
                observed,
                display,
                errors[a],
                j,
            ) && #[trigger] is_discovery(observed, display, errors[b], k) implies j < k by {
            assert(is_observed(fewer, display, before[a]));
            let first = lemma_discovered(fewer, display, before[a]);
            assert(is_discovery(observed, display, errors[a], first));
            lemma_one_discovery(observed, display, errors[a], j, first);
            if b < before.len() {
                assert(is_observed(fewer, display, before[b]));
                let second = lemma_discovered(fewer, display, before[b]);
                assert(is_discovery(observed, display, errors[b], second));
                lemma_one_discovery(observed, display, errors[b], k, second);
            } else {
                lemma_one_discovery(observed, display, errors[b], k, last);
            }
        }
    }
}

/// An error that is observed is discovered somewhere.
proof fn lemma_discovered(
    observed: Seq<Observation>,
    display: Seq<char>,
    error: ForeignError,
) -> (k: int)
    requires
        is_observed(observed, display, error),
    ensures
        is_discovery(observed, display, error, k),
    decreases observed.len(),
{
    let last = observed.len() - 1;
    let fewer = observed.drop_last();
    if is_observed(fewer, display, error) {
        let k = lemma_discovered(fewer, display, error);
        assert forall|j: int| 0 <= j < k implies !makes(
            #[trigger] observed[j],
            display,
            error,
        ) by {
            assert(!makes(fewer[j], display, error));
        }
        assert(observed[k] == fewer[k]);
        k
    } else {
        assert forall|j: int| 0 <= j < last implies !makes(
            #[trigger] observed[j],
            display,
            error,
        ) by {
            assert(fewer[j] == observed[j]);
        }
        last
    }
}

proof fn lemma_one_discovery(
    observed: Seq<Observation>,
    display: Seq<char>,
    error: ForeignError,
    j: int,
    k: int,
)
    requires
        is_discovery(observed, display, error, j),
        is_discovery(observed, display, error, k),
    ensures
        j == k,
{
    if j < k {
        assert(!makes(observed[j], display, error));
    }
    if k < j {
        assert(!makes(observed[k], display, error));
    }
}

/// Whether the record of an item accounts for every observation in it: under the
/// number of each error that was observed, and under no other, it holds the places
/// of its observations in order and how many they are; and these add up to all
/// observations.
pub open spec fn accounts_for(
    item: ItemRecord,
    errors: Seq<ForeignError>,
    observed: Seq<Observation>,
    display: Seq<char>,
) -> bool {
    &&& forall|id: usize| #[trigger]
        item.counts.contains_key(id) <==> id < errors.len() && is_observed(
            observed,
            display,
            errors[id as int],
        )
    &&& forall|id: usize| #[trigger]
        item.locations.contains_key(id) <==> item.counts.contains_key(id)
    &&& forall|id: usize| #[trigger]
        item.counts.contains_key(id) ==> {
            &&& item.locations[id] == places_of(observed, display, errors[id as int])
            &&& item.counts[id] as nat == places_of(observed, display, errors[id as int]).len()
        }
    &&& count_below(item, errors.len()) == observed.len()
}

proof fn lemma_accounts_for(
    store: Store,
    observed: Seq<Observation>,
    display: Seq<char>,
    index: nat,
    ignored: bool,
)
    requires
        valid_store(store),
        store.errors.len() + observed.len() <= usize::MAX,
    ensures
        ({
            let errors = register_all(store.errors, observed, display);
            accounts_for(
                item_record(errors, observed, display, index, ignored),
                errors,
                observed,
                display,
            )
        }),
{
    let errors = register_all(store.errors, observed, display);
    let item = item_record(errors, observed, display, index, ignored);
    lemma_register_all(store.errors, observed, display);
    lemma_counts_complete(store, observed, display, index, ignored);
    assert forall|id: usize| #![trigger item.counts.contains_key(id)]
        id < errors.len() implies {
        &&& locations_of(observed, display, errors[id as int]) == places_of(
            observed,
            display,
            errors[id as int],
        )
        &&& locations_of(observed, display, errors[id as int]).len() <= observed.len()
        &&& locations_of(observed, display, errors[id as int]).len() > 0 <==> is_observed(
            observed,
            display,
            errors[id as int],
        )
    } by {
        let e = errors[id as int];
        lemma_places_of(observed, display, e);
        lemma_locations_of(observed, display, e);
        assert forall|k: int| 0 <= k < observed.len() implies makes(
            #[trigger] observed[k],
            display,
            e,
        ) == (foreign_error(observed[k], display) == e) by {
            lemma_makes(observed[k], display, e);
        }
    }
}

/// Whether the items of a kind have become `after` by one more item, in which
/// `observed` was found: it is counted in any case, and listed if anything was
/// found, with its place among the items counted and with whether the lint is
/// allowed for it.
pub open spec fn item_added(
    before: Tally,
    after: Tally,
    errors: Seq<ForeignError>,
    observed: Seq<Observation>,
    display: Seq<char>,
    ignored: bool,
) -> bool {
    let listed = before.item_error_counts.len();
    &&& after.total_items == before.total_items + 1
    &&& observed.len() == 0 ==> after.item_error_counts == before.item_error_counts
    &&& observed.len() > 0 ==> {
        let item = after.item_error_counts[listed as int];
        &&& after.item_error_counts.len() == listed + 1
        &&& forall|i: int|
            0 <= i < listed ==> #[trigger] after.item_error_counts[i]
                == before.item_error_counts[i]
        &&& item.index == before.total_items
        &&& item.ignored == ignored
        &&& accounts_for(item, errors, observed, display)
    }
}

/// Whether the calling conventions have become `after` by one more item under
/// `name`.
pub open spec fn abi_counted(
    before: Map<Seq<char>, nat>,
    after: Map<Seq<char>, nat>,
    name: Seq<char>,
) -> bool {
    &&& after.contains_key(name)
    &&& after[name] == if before.contains_key(name) {
        before[name] + 1
    } else {
        1
    }
    &&& forall|other: Seq<char>|
        other != name ==> (#[trigger] after.contains_key(other) <==> before.contains_key(other))
    &&& forall|other: Seq<char>|
        other != name && #[trigger] before.contains_key(other) ==> after[other] == before[other]
}

/// The items of a kind are those that bear its name.
pub proof fn lemma_tallies(store: Store, tally: Tally)
    ensures
        store.tally(ForeignItemType::RustFn) == store.rust_functions,
        store.tally(ForeignItemType::ForeignFn) == store.foreign_functions,
        store.tally(ForeignItemType::StaticItem) == store.static_items,
        store.with_tally(ForeignItemType::RustFn, tally) == (Store {
            rust_functions: tally,
            ..store
        }),
        store.with_tally(ForeignItemType::ForeignFn, tally) == (Store {
            foreign_functions: tally,
            ..store
        }),
        store.with_tally(ForeignItemType::StaticItem, tally) == (Store {
            static_items: tally,
            ..store
        }),
{
}

/// Whether two records hold the same notes on the crate.
pub open spec fn same_notes(before: Store, after: Store) -> bool {
    &&& after.decl_lint_disabled_for_crate == before.decl_lint_disabled_for_crate
    &&& after.defn_lint_disabled_for_crate == before.defn_lint_disabled_for_crate
}

/// An item is recorded with all that was observed in it, and nothing else changes.
pub proof fn lemma_item_recorded(
    store: Store,
    observed: Seq<Observation>,
    display: Seq<char>,
    item_type: ForeignItemType,
    ignored: bool,
)
    requires
        valid_store(store),
        store.errors.len() + observed.len() <= usize::MAX,
    ensures
        ({
            let after = record_item(store, observed, display, item_type, ignored);
            &&& numbered(store.errors, after.errors, observed, display)
            &&& item_added(
                store.tally(item_type),
                after.tally(item_type),
                after.errors,
                observed,
                display,
                ignored,
            )
            &&& after.tally(item_type).abis == store.tally(item_type).abis
            &&& forall|kind: ForeignItemType|
                kind != item_type ==> #[trigger] after.tally(kind) == store.tally(kind)
            &&& same_notes(store, after)
        }),
{
    lemma_numbered(store.errors, observed, display);
    lemma_accounts_for(
        store,
        observed,
        display,
        store.tally(item_type).total_items,
        ignored,
    );
}

/// An item is counted once under the name of its calling convention, among the
/// items of its kind, and nothing else changes.
pub proof fn lemma_abi_counted(store: Store, name: Seq<char>, item_type: ForeignItemType)
    ensures
        ({
            let after = count_abi(store, name, item_type);
            &&& abi_counted(store.tally(item_type).abis, after.tally(item_type).abis, name)
            &&& after.tally(item_type).total_items == store.tally(item_type).total_items
            &&& after.tally(item_type).item_error_counts == store.tally(
                item_type,
            ).item_error_counts
            &&& forall|kind: ForeignItemType|
                kind != item_type ==> #[trigger] after.tally(kind) == store.tally(kind)
            &&& after.errors == store.errors
            &&& same_notes(store, after)
        }),
{
}

/// Whether the `i`th lint is the first of a name.
pub open spec fn is_first_lint(lints: Seq<Lint>, name: Seq<char>, i: int) -> bool {
    &&& 0 <= i < lints.len()
    &&& lints[i].name@ == name
    &&& forall|j: int| 0 <= j < i ==> (#[trigger] lints[j]).name@ != name
}

/// Whether no lint has a name.
pub open spec fn no_lint(lints: Seq<Lint>, name: Seq<char>) -> bool {
    forall|j: int| 0 <= j < lints.len() ==> (#[trigger] lints[j]).name@ != name
}

/// The notes on the crate say whether the two lints are allowed, each as the first
/// of its name is set. If one of them is not registered, that is an error. Nothing
/// else changes.
pub proof fn lemma_crate_noted(store: Store, lints: Seq<Lint>)
    ensures
        ({
            let r = crate_outcome(store, lints);
            &&& no_lint(lints, "IMPROPER_CTYPES"@) || no_lint(
                lints,
                "IMPROPER_CTYPES_DEFINITIONS"@,
            ) ==> r == Err::<Store, CheckError>(CheckError::UnknownLint)
            &&& forall|i: int, j: int|
                #![trigger is_first_lint(lints, "IMPROPER_CTYPES"@, i), is_first_lint(lints, "IMPROPER_CTYPES_DEFINITIONS"@, j)]
                is_first_lint(lints, "IMPROPER_CTYPES"@, i) && is_first_lint(
                    lints,
                    "IMPROPER_CTYPES_DEFINITIONS"@,
                    j,
                ) ==> (r matches Ok(after) && {
                    &&& after.decl_lint_disabled_for_crate == (lints[i].level == Level::Allow)
                    &&& after.defn_lint_disabled_for_crate == (lints[j].level == Level::Allow)
                    &&& after.errors == store.errors
                    &&& after.foreign_functions == store.foreign_functions
                    &&& after.static_items == store.static_items
                    &&& after.rust_functions == store.rust_functions
                })
        }),
{
    lemma_lint_registered(lints, "IMPROPER_CTYPES"@);
    lemma_lint_registered(lints, "IMPROPER_CTYPES_DEFINITIONS"@);
    assert forall|i: int, j: int|
        #![trigger is_first_lint(lints, "IMPROPER_CTYPES"@, i), is_first_lint(lints, "IMPROPER_CTYPES_DEFINITIONS"@, j)]
        is_first_lint(lints, "IMPROPER_CTYPES"@, i) && is_first_lint(
            lints,
            "IMPROPER_CTYPES_DEFINITIONS"@,
            j,
        ) implies (crate_outcome(store, lints) matches Ok(after) && {
        &&& after.decl_lint_disabled_for_crate == (lints[i].level == Level::Allow)
        &&& after.defn_lint_disabled_for_crate == (lints[j].level == Level::Allow)
        &&& after.errors == store.errors
        &&& after.foreign_functions == store.foreign_functions
        &&& after.static_items == store.static_items
        &&& after.rust_functions == store.rust_functions
    }) by {
        lemma_lint_disabled(lints, "IMPROPER_CTYPES"@, i);
        lemma_lint_disabled(lints, "IMPROPER_CTYPES_DEFINITIONS"@, j);
    }
}

/// Whether the items of a kind stay as they are.
pub open spec fn only_abis_change(before: Tally, after: Tally) -> bool {
    &&& after.total_items == before.total_items
    &&& after.item_error_counts == before.item_error_counts
}

/// Whether a function of the crate has been counted under its calling convention,
/// and nothing else has changed.
pub open spec fn fn_only_counted(before: Store, after: Store, name: Seq<char>) -> bool {
    &&& abi_counted(before.rust_functions.abis, after.rust_functions.abis, name)
    &&& only_abis_change(before.rust_functions, after.rust_functions)
    &&& after.foreign_functions == before.foreign_functions
    &&& after.static_items == before.static_items
    &&& after.errors == before.errors
    &&& same_notes(before, after)
}

/// A closure changes nothing.
pub proof fn lemma_closure_not_recorded(
    store: Store,
    tcx: TyCtxt,
    lints: Seq<Lint>,
    sig: FnSig,
    decl: FnDecl,
)
    ensures
        fn_outcome(store, tcx, lints, FnKind::Closure, sig, decl) == Ok::<Store, CheckError>(store),
{
}

/// A function with a calling convention of Rust's own is only counted. Any other
/// function is judged as a definition: if that fails, so does the call; if nothing
/// is reported, the function is only counted; and if anything is, the lint for
/// definitions must be registered.
pub proof fn lemma_fn_not_recorded(
    store: Store,
    tcx: TyCtxt,
    lints: Seq<Lint>,
    kind: FnKind,
    sig: FnSig,
    decl: FnDecl,
    abi: SpecAbi,
)
    requires
        kind == FnKind::ItemFn(abi) || kind == FnKind::Method(abi),
    ensures
        ({
            let r = fn_outcome(store, tcx, lints, kind, sig, decl);
            let observed = fn_report(tcx, CItemKind::Definition, sig, decl);
            let foreign = abi.kind == AbiKind::Foreign;
            &&& !foreign || (observed matches Ok(all) && all.len() == 0) ==> (r matches Ok(after)
                && fn_only_counted(store, after, abi.name@))
            &&& foreign ==> (observed matches Err(e) ==> r == Err::<Store, CheckError>(e))
            &&& foreign && (observed matches Ok(all) && all.len() > 0) && no_lint(
                lints,
                "IMPROPER_CTYPES_DEFINITIONS"@,
            ) ==> r == Err::<Store, CheckError>(CheckError::UnknownLint)
        }),
{
    lemma_lint_registered(lints, "IMPROPER_CTYPES_DEFINITIONS"@);
    lemma_abi_counted(store, abi.name@, ForeignItemType::RustFn);
    lemma_tallies(store, store.rust_functions);
}

/// A function that foreign code can call, and of which something is reported as a
/// definition, is recorded with every observation in the report, under its calling
/// convention as that is printed, and with whether the lint for definitions is
/// allowed for it. It is counted under the name of its calling convention.
pub proof fn lemma_fn_recorded(
    store: Store,
    tcx: TyCtxt,
    lints: Seq<Lint>,
    kind: FnKind,
    sig: FnSig,
    decl: FnDecl,
    abi: SpecAbi,
    observed: Seq<Observation>,
    i: int,
)
    requires
        valid_store(store),
        store.errors.len() + observed.len() <= usize::MAX,
        kind == FnKind::ItemFn(abi) || kind == FnKind::Method(abi),
        abi.kind == AbiKind::Foreign,
        fn_report(tcx, CItemKind::Definition, sig, decl) == Ok::<Seq<Observation>, CheckError>(
            observed,
        ),
        observed.len() > 0,
        is_first_lint(lints, "IMPROPER_CTYPES_DEFINITIONS"@, i),
    ensures
        fn_outcome(store, tcx, lints, kind, sig, decl) matches Ok(after) && {
            &&& numbered(store.errors, after.errors, observed, abi.display@)
            &&& item_added(
                store.rust_functions,
                after.rust_functions,
                after.errors,
                observed,
                abi.display@,
                lints[i].level == Level::Allow,
            )
            &&& abi_counted(store.rust_functions.abis, after.rust_functions.abis, abi.name@)
            &&& after.foreign_functions == store.foreign_functions
            &&& after.static_items == store.static_items
            &&& same_notes(store, after)
        },
{
    lemma_lint_disabled(lints, "IMPROPER_CTYPES_DEFINITIONS"@, i);
    let counted = count_abi(store, abi.name@, ForeignItemType::RustFn);
    lemma_abi_counted(store, abi.name@, ForeignItemType::RustFn);
    crate::store::lemma_count_abi_valid(store, abi.name@, ForeignItemType::RustFn);
    lemma_item_recorded(
        counted,
        observed,
        abi.display@,
        ForeignItemType::RustFn,
        lints[i].level == Level::Allow,
    );
    lemma_tallies(store, store.rust_functions);
}

/// What is reported of the types of a foreign item as a declaration.
pub open spec fn declared(tcx: TyCtxt, kind: ForeignItemKind) -> Result<
    Seq<Observation>,
    CheckError,
> {
    match kind {
        ForeignItemKind::Fn(sig, decl) => fn_report(tcx, CItemKind::Declaration, sig, decl),
        ForeignItemKind::Static(ty, place) => report(
            tcx,
            CItemKind::Declaration,
            place@,
            ty,
            true,
            false,
        ),
        ForeignItemKind::Type => Ok(Seq::empty()),
    }
}

/// The items among which a foreign item belongs: the foreign functions for a
/// function, and the static items for any other.
pub open spec fn items_like(store: Store, kind: ForeignItemKind) -> Tally {
    if kind is Fn {
        store.foreign_functions
    } else {
        store.static_items
    }
}

/// Whether nothing has changed but the errors and the items among which a foreign
/// item belongs.
pub open spec fn others_unchanged(before: Store, after: Store, kind: ForeignItemKind) -> bool {
    &&& !(kind is Fn) ==> after.foreign_functions == before.foreign_functions
    &&& kind is Fn ==> after.static_items == before.static_items
    &&& after.rust_functions == before.rust_functions
    &&& same_notes(before, after)
}

/// A foreign type changes nothing. A function or a static item with a calling
/// convention of Rust's own is only counted. Any other is judged as a declaration:
/// if that fails, or if the lint for declarations is not registered, so does the
/// call.
pub proof fn lemma_foreign_item_not_recorded(
    store: Store,
    tcx: TyCtxt,
    lints: Seq<Lint>,
    abi: SpecAbi,
    kind: ForeignItemKind,
)
    ensures
        ({
            let r = foreign_item_outcome(store, tcx, lints, abi, kind);
            &&& kind is Type ==> r == Ok::<Store, CheckError>(store)
            &&& !(kind is Type) && abi.kind != AbiKind::Foreign ==> (r matches Ok(after) && {
                let from = items_like(store, kind);
                let to = items_like(after, kind);
                &&& abi_counted(from.abis, to.abis, abi.name@)
                &&& only_abis_change(from, to)
                &&& others_unchanged(store, after, kind)
                &&& after.errors == store.errors
            })
            &&& !(kind is Type) && abi.kind == AbiKind::Foreign ==> {
                &&& declared(tcx, kind) matches Err(e) ==> r == Err::<Store, CheckError>(e)
                &&& declared(tcx, kind) is Ok && no_lint(lints, "IMPROPER_CTYPES"@) ==> r == Err::<
                    Store,
                    CheckError,
                >(CheckError::UnknownLint)
            }
        }),
{
    lemma_lint_registered(lints, "IMPROPER_CTYPES"@);
    if !(kind is Type) && abi.kind != AbiKind::Foreign {
        let item_type = if kind is Fn {
            ForeignItemType::ForeignFn
        } else {
            ForeignItemType::StaticItem
        };
        let after = count_abi(store, abi.name@, item_type);
        lemma_abi_counted(store, abi.name@, item_type);
        lemma_tallies(store, store.tally(item_type));
        lemma_tallies(after, after.tally(item_type));
        assert(foreign_item_outcome(store, tcx, lints, abi, kind) == Ok::<Store, CheckError>(
            after,
        ));
    }
}

/// A foreign function or static item with any other calling convention is recorded
/// with every observation in the report on it as a declaration, whether or not
/// there is one, under its calling convention as that is printed, and with whether
/// the lint for declarations is allowed for it. It is counted under the name of its
/// calling convention.
pub proof fn lemma_foreign_item_recorded(
    store: Store,
    tcx: TyCtxt,
    lints: Seq<Lint>,
    abi: SpecAbi,
    kind: ForeignItemKind,
    observed: Seq<Observation>,
    i: int,
)
    requires
        valid_store(store),
        store.errors.len() + observed.len() <= usize::MAX,
        !(kind is Type),
        abi.kind == AbiKind::Foreign,
        declared(tcx, kind) == Ok::<Seq<Observation>, CheckError>(observed),
        is_first_lint(lints, "IMPROPER_CTYPES"@, i),
    ensures
        foreign_item_outcome(store, tcx, lints, abi, kind) matches Ok(after) && {
            &&& numbered(store.errors, after.errors, observed, abi.display@)
            &&& item_added(
                items_like(store, kind),
                items_like(after, kind),
                after.errors,
                observed,
                abi.display@,
                lints[i].level == Level::Allow,
            )
            &&& abi_counted(
                items_like(store, kind).abis,
                items_like(after, kind).abis,
                abi.name@,
            )
            &&& others_unchanged(store, after, kind)
        },
{
    lemma_lint_disabled(lints, "IMPROPER_CTYPES"@, i);
    let item_type = if kind is Fn {
        ForeignItemType::ForeignFn
    } else {
        ForeignItemType::StaticItem
    };
    let ignored = lints[i].level == Level::Allow;
    let counted = count_abi(store, abi.name@, item_type);
    lemma_abi_counted(store, abi.name@, item_type);
    crate::store::lemma_count_abi_valid(store, abi.name@, item_type);
    lemma_item_recorded(counted, observed, abi.display@, item_type, ignored);
    let after = record_item(counted, observed, abi.display@, item_type, ignored);
    assert(foreign_item_outcome(store, tcx, lints, abi, kind) == Ok::<Store, CheckError>(after));
    lemma_tallies(store, store.tally(item_type));
    lemma_tallies(after, after.tally(item_type));
}

/// When there is room for one more item: where foreign code can use its calling
/// convention, the items, the calling convention and the errors must not outgrow
/// their counters; else only the calling convention counts.
pub proof fn lemma_room(
    record: FfickleLate,
    item_type: ForeignItemType,
    abi: SpecAbi,
    errors: nat,
)
    ensures
        ({
            let tally = match item_type {
                ForeignItemType::RustFn => record@.rust_functions,
                ForeignItemType::ForeignFn => record@.foreign_functions,
                ForeignItemType::StaticItem => record@.static_items,
            };
            let can_count = tally.abis.contains_key(abi.name@) ==> tally.abis[abi.name@]
                < usize::MAX;
            record.has_room_under(item_type, abi, errors) <==> can_count && (abi.kind
                == AbiKind::Foreign ==> tally.total_items < usize::MAX && record.error_id_count
                + errors <= usize::MAX)
        }),
{
}

/// A foreign item has no more errors than types are written in it.
pub proof fn lemma_max_errors(kind: ForeignItemKind)
    ensures
        kind matches ForeignItemKind::Fn(sig, decl) ==> {
            &&& max_errors(kind) <= sig.inputs@.len() + 1
            &&& max_errors(kind) <= decl.inputs@.len() + 1
        },
        kind is Static ==> max_errors(kind) == 1,
        kind is Type ==> max_errors(kind) == 0,
{
}

/// The record begins with nothing in it: no error, no item, no calling convention,
/// and no note that a lint is allowed.
pub proof fn lemma_empty_record()
    ensures
        ({
            let store = empty_store();
            &&& store.errors.len() == 0
            &&& !store.decl_lint_disabled_for_crate
            &&& !store.defn_lint_disabled_for_crate
            &&& forall|kind: ForeignItemType|
                {
                    &&& (#[trigger] store.tally(kind)).total_items == 0
                    &&& store.tally(kind).item_error_counts.len() == 0
                    &&& forall|name: Seq<char>| !(#[trigger] store.tally(kind).abis.contains_key(
                        name,
                    ))
                }
        }),
{
}

/// A list of observed types says what they say, one by one.
pub proof fn lemma_observations(errors: Seq<ObservedImproperType>)
    ensures
        observations(errors).len() == errors.len(),
        forall|i: int|
            0 <= i < errors.len() ==> #[trigger] observations(errors)[i] == errors[i]@,
{
}

/// An observation and an error say what their parts say.
pub proof fn lemma_views_of_errors(observed: ObservedImproperType, error: ForeignTypeError)
    ensures
        observed@.discriminant == observed.discriminant,
        observed@.str_rep == observed.str_rep@,
        observed@.location == observed.location@,
        observed@.reason == observed.reason,
        error@.discriminant == error.discriminant,
        error@.str_rep == error.str_rep@,
        error@.abi == error.abi@,
        error@.reason == error.reason,
{
}

/// The items of a kind say what their parts say.
pub proof fn lemma_views_of_items(item: ItemErrorCounts, tally: ErrorCount)
    requires
        tally.wf(),
    ensures
        item@.counts == item.counts@,
        item@.index == item.index,
        item@.ignored == item.ignored,
        item@.locations.dom() == item.locations@.dom(),
        forall|id: usize, j: int|
            item.locations@.contains_key(id) && 0 <= j < item.locations@[id]@.len()
                ==> item@.locations[id].len() == item.locations@[id]@.len()
                && #[trigger] item@.locations[id][j] == item.locations@[id]@[j]@,
        tally@.total_items == tally.total_items,
        tally@.item_error_counts.len() == tally.item_error_counts@.len(),
        forall|i: int|
            0 <= i < tally.item_error_counts@.len() ==> #[trigger] tally@.item_error_counts[i]
                == tally.item_error_counts@[i]@,
        forall|i: int|
            0 <= i < tally.abis@.len() ==> tally@.abis.contains_key(
                (#[trigger] tally.abis@[i]).name@,
            ) && tally@.abis[tally.abis@[i].name@] == tally.abis@[i].count,
        forall|name: Seq<char>| #[trigger]
            tally@.abis.contains_key(name) ==> exists|i: int|
                0 <= i < tally.abis@.len() && (#[trigger] tally.abis@[i]).name@ == name,
{
    assert(item@.locations.dom() =~= item.locations@.dom());
    assert forall|i: int| 0 <= i < tally.abis@.len() implies tally@.abis.contains_key(
        (#[trigger] tally.abis@[i]).name@,
    ) && tally@.abis[tally.abis@[i].name@] == tally.abis@[i].count by {
        let name = tally.abis@[i].name@;
        assert(crate::store::abi_listed(tally.abis@, name));
        assert(crate::store::abi_place(tally.abis@, name) == i);
    }
}

/// The record says what its parts say; the number of an error is the one under
/// which it is kept.
pub proof fn lemma_view_of_record(record: FfickleLate)
    ensures
        record@.errors.len() == record.error_id_count,
        forall|id: usize|
            id < record.error_id_count ==> #[trigger] record@.errors[id as int]
                == record.error_id_map@[id]@,
        record@.foreign_functions == record.foreign_functions@,
        record@.static_items == record.static_items@,
        record@.rust_functions == record.rust_functions@,
        record@.decl_lint_disabled_for_crate == record.decl_lint_disabled_for_crate,
        record@.defn_lint_disabled_for_crate == record.defn_lint_disabled_for_crate,
{
}

} // verus!
