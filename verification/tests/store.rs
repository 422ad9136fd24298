use ffickle_late::report::ObservedImproperType;
use ffickle_late::store::{ErrorCount, FfickleLate, ForeignItemType};

fn seen(str_rep: &str, location: &str, reason: i32) -> ObservedImproperType {
    ObservedImproperType {
        discriminant: 7,
        str_rep: String::from(str_rep),
        location: String::from(location),
        reason,
    }
}

fn abi_count(tally: &ErrorCount, name: &str) -> Option<usize> {
    tally.abis.iter().find(|abi| abi.name == name).map(|abi| abi.count)
}

#[test]
fn a_new_record_is_empty() {
    let store = FfickleLate::default();
    assert_eq!(store.error_id_count, 0);
    assert!(store.error_id_map.is_empty());
    assert_eq!(store.rust_functions.total_items, 0);
    assert!(store.foreign_functions.item_error_counts.is_empty());
    assert!(store.static_items.abis.is_empty());
    assert!(!store.decl_lint_disabled_for_crate);
    assert!(!store.defn_lint_disabled_for_crate);
}

#[test]
fn calling_conventions_are_counted_by_kind() {
    let mut store = FfickleLate::default();
    store.record_abi("C", ForeignItemType::RustFn);
    store.record_abi("Rust", ForeignItemType::RustFn);
    store.record_abi("C", ForeignItemType::RustFn);
    store.record_abi("C", ForeignItemType::StaticItem);
    assert_eq!(abi_count(&store.rust_functions, "C"), Some(2));
    assert_eq!(abi_count(&store.rust_functions, "Rust"), Some(1));
    assert_eq!(abi_count(&store.static_items, "C"), Some(1));
    assert_eq!(abi_count(&store.foreign_functions, "C"), None);
    assert_eq!(store.rust_functions.abis.len(), 2);
    assert_eq!(store.rust_functions.total_items, 0);
}

#[test]
fn errors_are_numbered_in_the_order_of_their_discovery() {
    let mut store = FfickleLate::default();
    store.record_errors(
        vec![seen("str", "1", 3), seen("dyn A", "2", 4), seen("str", "3", 3)],
        "\"C\"",
        ForeignItemType::ForeignFn,
        false,
    );
    assert_eq!(store.error_id_count, 2);
    assert_eq!(store.error_id_map[&0].str_rep, "str");
    assert_eq!(store.error_id_map[&0].abi, "C");
    assert_eq!(store.error_id_map[&0].discriminant, 7);
    assert_eq!(store.error_id_map[&0].reason, 3);
    assert_eq!(store.error_id_map[&1].str_rep, "dyn A");
    let items = &store.foreign_functions.item_error_counts;
    assert_eq!(store.foreign_functions.total_items, 1);
    assert_eq!(items.len(), 1);
    assert_eq!(items[0].index, 0);
    assert!(!items[0].ignored);
    assert_eq!(items[0].counts.len(), 2);
    assert_eq!(items[0].counts[&0], 2);
    assert_eq!(items[0].counts[&1], 1);
    assert_eq!(items[0].locations[&0], vec!["1", "3"]);
    assert_eq!(items[0].locations[&1], vec!["2"]);
    // The counts add up to the number of observations.
    assert_eq!(items[0].counts.values().sum::<usize>(), 3);
}

#[test]
fn an_error_keeps_its_number_in_later_items() {
    let mut store = FfickleLate::default();
    store.record_errors(vec![seen("str", "1", 3)], "\"C\"", ForeignItemType::RustFn, true);
    store.record_errors(
        vec![seen("dyn A", "2", 4), seen("str", "3", 3)],
        "\"C\"",
        ForeignItemType::StaticItem,
        false,
    );
    assert_eq!(store.error_id_count, 2);
    assert_eq!(store.error_id_map[&0].str_rep, "str");
    assert_eq!(store.rust_functions.item_error_counts[0].counts[&0], 1);
    assert!(store.rust_functions.item_error_counts[0].ignored);
    assert_eq!(store.static_items.item_error_counts[0].counts[&0], 1);
    assert_eq!(store.static_items.item_error_counts[0].locations[&0], vec!["3"]);
    assert_eq!(store.static_items.item_error_counts[0].counts[&1], 1);
    assert_eq!(store.foreign_functions.total_items, 0);
}

#[test]
fn errors_differ_by_every_part() {
    let mut store = FfickleLate::default();
    store.record_errors(
        vec![
            seen("str", "1", 3),
            seen("str", "1", 4),
            seen("String", "1", 3),
            ObservedImproperType { discriminant: 8, ..seen("str", "1", 3) },
        ],
        "\"C\"",
        ForeignItemType::RustFn,
        false,
    );
    store.record_errors(vec![seen("str", "1", 3)], "\"system\"", ForeignItemType::RustFn, false);
    assert_eq!(store.error_id_count, 5);
    assert_eq!(store.error_id_map[&4].abi, "system");
}

#[test]
fn items_without_errors_are_counted_but_not_listed() {
    let mut store = FfickleLate::default();
    store.record_errors(vec![], "\"C\"", ForeignItemType::ForeignFn, false);
    store.record_errors(vec![seen("str", "1", 3)], "\"C\"", ForeignItemType::ForeignFn, false);
    store.record_errors(vec![], "\"C\"", ForeignItemType::ForeignFn, false);
    store.record_errors(vec![seen("str", "2", 3)], "\"C\"", ForeignItemType::ForeignFn, false);
    assert_eq!(store.foreign_functions.total_items, 4);
    let indices: Vec<usize> =
        store.foreign_functions.item_error_counts.iter().map(|item| item.index).collect();
    assert_eq!(indices, vec![1, 3]);
}

#[test]
fn quotation_marks_are_dropped_from_calling_conventions() {
    let mut store = FfickleLate::default();
    for abi in ["\"C-unwind\"", "C-unwind", "\"\"C-\"unwind\""] {
        store.record_errors(vec![seen("str", "1", 3)], abi, ForeignItemType::RustFn, false);
    }
    assert_eq!(store.error_id_count, 1);
    assert_eq!(store.error_id_map[&0].abi, "C-unwind");
    store.record_errors(vec![seen("str", "1", 3)], "\"\"", ForeignItemType::RustFn, false);
    assert_eq!(store.error_id_map[&1].abi, "");
}

#[test]
fn counting_and_recording_commute() {
    let mut one = FfickleLate::default();
    one.record_abi("C", ForeignItemType::RustFn);
    one.record_errors(vec![seen("str", "1", 3)], "\"C\"", ForeignItemType::RustFn, false);
    let mut two = FfickleLate::default();
    two.record_errors(vec![seen("str", "1", 3)], "\"C\"", ForeignItemType::RustFn, false);
    two.record_abi("C", ForeignItemType::RustFn);
    for store in [&one, &two] {
        assert_eq!(abi_count(&store.rust_functions, "C"), Some(1));
        assert_eq!(store.rust_functions.total_items, 1);
        assert_eq!(store.rust_functions.item_error_counts[0].index, 0);
    }
}

#[test]
fn room_runs_out_at_the_machine_limit() {
    let mut store = FfickleLate::default();
    assert!(store.has_room_for(ForeignItemType::RustFn, "C", usize::MAX));
    store.record_errors(vec![seen("str", "1", 3)], "\"C\"", ForeignItemType::RustFn, false);
    assert!(!store.has_room_for(ForeignItemType::RustFn, "C", usize::MAX));
    assert!(store.has_room_for(ForeignItemType::RustFn, "C", usize::MAX - 1));
    store.static_items.total_items = usize::MAX;
    assert!(!store.has_room_for(ForeignItemType::StaticItem, "C", 0));
    store.record_abi("C", ForeignItemType::ForeignFn);
    store.foreign_functions.abis[0].count = usize::MAX;
    assert!(!store.has_room_for(ForeignItemType::ForeignFn, "C", 0));
    assert!(store.has_room_for(ForeignItemType::ForeignFn, "Rust", 0));
    assert!(!store.has_room_to_count(ForeignItemType::ForeignFn, "C"));
    assert!(store.has_room_to_count(ForeignItemType::ForeignFn, "Rust"));
    assert!(store.has_room_to_count(ForeignItemType::StaticItem, "C"));
}
