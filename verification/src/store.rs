//! The record of all improper types that were found in a crate.
//!
//! Every distinct error has one number. For each item with errors the record
//! says how often each error occurs in it, and where.

use vstd::prelude::*;

use std::collections::HashMap;

use crate::report::{observations, Observation, ObservedImproperType};

verus! {

/// An error, whatever the place it was found at.
#[derive(Debug)]
pub struct ForeignTypeError {
    pub discriminant: usize,
    pub str_rep: String,
    pub abi: String,
    pub reason: i32,
}

/// What a [`ForeignTypeError`] says.
pub struct ForeignError {
    pub discriminant: usize,
    pub str_rep: Seq<char>,
    pub abi: Seq<char>,
    pub reason: i32,
}

impl View for ForeignTypeError {
    type V = ForeignError;

    open spec fn view(&self) -> ForeignError {
        ForeignError {
            discriminant: self.discriminant,
            str_rep: self.str_rep@,
            abi: self.abi@,
            reason: self.reason,
        }
    }
}

/// What kind of item a foreign interface is made of.
#[derive(Clone, Copy, Debug, PartialEq, Eq, Structural)]
pub enum ForeignItemType {
    RustFn,
    ForeignFn,
    StaticItem,
}

/// The errors of one item: how often each occurs and where. `index` is the
/// place of the item among those of its kind.
#[derive(Debug)]
pub struct ItemErrorCounts {
    pub counts: HashMap<usize, usize>,
    pub locations: HashMap<usize, Vec<String>>,
    pub index: usize,
    pub ignored: bool,
}

/// What an [`ItemErrorCounts`] says.
#[verifier::ext_equal]
pub struct ItemRecord {
    pub counts: Map<usize, usize>,
    pub locations: Map<usize, Seq<Seq<char>>>,
    pub index: nat,
    pub ignored: bool,
}

/// What a list of strings says.
pub open spec fn texts(strings: Seq<String>) -> Seq<Seq<char>> {
    strings.map_values(|s: String| s@)
}

impl View for ItemErrorCounts {
    type V = ItemRecord;

    open spec fn view(&self) -> ItemRecord {
        ItemRecord {
            counts: self.counts@,
            locations: self.locations@.map_values(|places: Vec<String>| texts(places@)),
            index: self.index as nat,
            ignored: self.ignored,
        }
    }
}

/// How many items have the calling convention `name`.
#[derive(Debug)]
pub struct AbiCount {
    pub name: String,
    pub count: usize,
}

/// The items of one kind.
#[derive(Debug)]
pub struct ErrorCount {
    pub total_items: usize,
    pub item_error_counts: Vec<ItemErrorCounts>,
    pub abis: Vec<AbiCount>,
}

/// What an [`ErrorCount`] says.
#[verifier::ext_equal]
pub struct Tally {
    pub total_items: nat,
    pub item_error_counts: Seq<ItemRecord>,
    pub abis: Map<Seq<char>, nat>,
}

/// Whether a calling convention is counted.
pub open spec fn abi_listed(abis: Seq<AbiCount>, name: Seq<char>) -> bool {
    exists|i: int| 0 <= i < abis.len() && (#[trigger] abis[i]).name@ == name
}

/// The place of a calling convention that is counted.
pub open spec fn abi_place(abis: Seq<AbiCount>, name: Seq<char>) -> int {
    choose|i: int| 0 <= i < abis.len() && (#[trigger] abis[i]).name@ == name
}

/// The counts by the calling conventions.
pub open spec fn abi_counts(abis: Seq<AbiCount>) -> Map<Seq<char>, nat> {
    Map::new(
        |name: Seq<char>| abi_listed(abis, name),
        |name: Seq<char>| abis[abi_place(abis, name)].count as nat,
    )
}

impl View for ErrorCount {
    type V = Tally;

    open spec fn view(&self) -> Tally {
        Tally {
            total_items: self.total_items as nat,
            item_error_counts: self.item_error_counts@.map_values(|item: ItemErrorCounts| item@),
            abis: abi_counts(self.abis@),
        }
    }
}

/// The whole record.
#[derive(Debug)]
pub struct FfickleLate {
    pub error_id_count: usize,
    pub error_id_map: HashMap<usize, ForeignTypeError>,
    pub foreign_functions: ErrorCount,
    pub static_items: ErrorCount,
    pub rust_functions: ErrorCount,
    pub decl_lint_disabled_for_crate: bool,
    pub defn_lint_disabled_for_crate: bool,
}

/// What a [`FfickleLate`] says. The number of an error is its place in
/// `errors`.
#[verifier::ext_equal]
pub struct Store {
    pub errors: Seq<ForeignError>,
    pub foreign_functions: Tally,
    pub static_items: Tally,
    pub rust_functions: Tally,
    pub decl_lint_disabled_for_crate: bool,
    pub defn_lint_disabled_for_crate: bool,
}

impl View for FfickleLate {
    type V = Store;

    open spec fn view(&self) -> Store {
        Store {
            errors: Seq::new(
                self.error_id_count as nat,
                |id: int| self.error_id_map@[id as usize]@,
            ),
            foreign_functions: self.foreign_functions@,
            static_items: self.static_items@,
            rust_functions: self.rust_functions@,
            decl_lint_disabled_for_crate: self.decl_lint_disabled_for_crate,
            defn_lint_disabled_for_crate: self.defn_lint_disabled_for_crate,
        }
    }
}

impl Store {
    /// The items of one kind.
    pub open spec fn tally(self, item_type: ForeignItemType) -> Tally {
        match item_type {
            ForeignItemType::RustFn => self.rust_functions,
            ForeignItemType::ForeignFn => self.foreign_functions,
            ForeignItemType::StaticItem => self.static_items,
        }
    }

    /// The record with other items of one kind.
    pub open spec fn with_tally(self, item_type: ForeignItemType, tally: Tally) -> Store {
        match item_type {
            ForeignItemType::RustFn => Store { rust_functions: tally, ..self },
            ForeignItemType::ForeignFn => Store { foreign_functions: tally, ..self },
            ForeignItemType::StaticItem => Store { static_items: tally, ..self },
        }
    }
}

/// A text without its quotation marks.
pub open spec fn unquoted(s: Seq<char>) -> Seq<char>
    decreases s.len(),
{
    if s.len() == 0 {
        Seq::empty()
    } else if s.last() == '"' {
        unquoted(s.drop_last())
    } else {
        unquoted(s.drop_last()).push(s.last())
    }
}

/// A text without its quotation marks.
fn without_quotes(s: &str) -> (r: String)
    ensures
        r@ == unquoted(s@),
{
    let n = s.unicode_len();
    let mut r = String::new();
    let mut i: usize = 0;
    while i < n
        invariant
            i <= n,
            n == s@.len(),
            r@ == unquoted(s@.take(i as int)),
        decreases n - i,
    {
        assert(s@.take(i + 1).drop_last() =~= s@.take(i as int));
        if s.get_char(i) != '"' {
            let ghost before = r@;
            let c = s.substring_char(i, i + 1);
            r.append(c);
            assert(r@ =~= before.push(s@[i as int]));
        }
        i = i + 1;
    }
    assert(s@.take(n as int) =~= s@);
    r
}

/// The error that an observation in an item with the calling convention `abi`
/// makes.
pub open spec fn foreign_error(observed: Observation, abi: Seq<char>) -> ForeignError {
    ForeignError {
        discriminant: observed.discriminant,
        str_rep: observed.str_rep,
        abi: unquoted(abi),
        reason: observed.reason,
    }
}

/// The known errors, with those of an item added that were not known yet.
pub open spec fn register_all(
    known: Seq<ForeignError>,
    observed: Seq<Observation>,
    abi: Seq<char>,
) -> Seq<ForeignError>
    decreases observed.len(),
{
    if observed.len() == 0 {
        known
    } else {
        let before = register_all(known, observed.drop_last(), abi);
        let error = foreign_error(observed.last(), abi);
        if before.contains(error) {
            before
        } else {
            before.push(error)
        }
    }
}

/// Where an error was observed, in order.
pub open spec fn locations_of(
    observed: Seq<Observation>,
    abi: Seq<char>,
    error: ForeignError,
) -> Seq<Seq<char>>
    decreases observed.len(),
{
    if observed.len() == 0 {
        Seq::empty()
    } else {
        let before = locations_of(observed.drop_last(), abi, error);
        if foreign_error(observed.last(), abi) == error {
            before.push(observed.last().location)
        } else {
            before
        }
    }
}

/// Whether the error of the number `id` was observed.
pub open spec fn occurs(
    errors: Seq<ForeignError>,
    observed: Seq<Observation>,
    abi: Seq<char>,
    id: usize,
) -> bool {
    id < errors.len() && locations_of(observed, abi, errors[id as int]).len() > 0
}

/// The record of an item: for each error that occurs in it, how often it does
/// and where.
pub open spec fn item_record(
    errors: Seq<ForeignError>,
    observed: Seq<Observation>,
    abi: Seq<char>,
    index: nat,
    ignored: bool,
) -> ItemRecord {
    ItemRecord {
        counts: Map::new(
            |id: usize| occurs(errors, observed, abi, id),
            |id: usize| locations_of(observed, abi, errors[id as int]).len() as usize,
        ),
        locations: Map::new(
            |id: usize| occurs(errors, observed, abi, id),
            |id: usize| locations_of(observed, abi, errors[id as int]),
        ),
        index,
        ignored,
    }
}

/// The record with one more item, in which `observed` was found. The item is
/// counted in any case, and listed if anything was found in it.
pub open spec fn record_item(
    store: Store,
    observed: Seq<Observation>,
    abi: Seq<char>,
    item_type: ForeignItemType,
    ignored: bool,
) -> Store {
    let errors = register_all(store.errors, observed, abi);
    let tally = store.tally(item_type);
    let items = if observed.len() == 0 {
        tally.item_error_counts
    } else {
        tally.item_error_counts.push(
            item_record(errors, observed, abi, tally.total_items, ignored),
        )
    };
    Store { errors, ..store }.with_tally(
        item_type,
        Tally {
            total_items: tally.total_items + 1,
            item_error_counts: items,
            abis: tally.abis,
        },
    )
}

/// How many items have a calling convention.
pub open spec fn abi_count(tally: Tally, abi: Seq<char>) -> nat {
    if tally.abis.contains_key(abi) {
        tally.abis[abi]
    } else {
        0
    }
}

/// The record with one more item of the calling convention `abi`.
pub open spec fn count_abi(store: Store, abi: Seq<char>, item_type: ForeignItemType) -> Store {
    let tally = store.tally(item_type);
    store.with_tally(
        item_type,
        Tally { abis: tally.abis.insert(abi, abi_count(tally, abi) + 1), ..tally },
    )
}

/// Whether the record of an item agrees with itself: something occurs in the
/// item, each error that does has a number below `errors`, and it is counted
/// once for each place it was found at.
pub open spec fn valid_item(item: ItemRecord, errors: nat) -> bool {
    &&& item.counts.dom() == item.locations.dom()
    &&& exists|id: usize| #[trigger] item.counts.contains_key(id)
    &&& forall|id: usize| #[trigger]
        item.counts.contains_key(id) ==> {
            &&& id < errors
            &&& item.counts[id] as nat == item.locations[id].len()
            &&& item.counts[id] > 0
        }
}

/// Whether the items of a kind agree with each other: those listed are listed
/// in order, and are among those counted.
pub open spec fn valid_tally(tally: Tally, errors: nat) -> bool {
    &&& forall|i: int|
        0 <= i < tally.item_error_counts.len() ==> valid_item(
            #[trigger] tally.item_error_counts[i],
            errors,
        )
    &&& forall|i: int|
        0 <= i < tally.item_error_counts.len() ==> (#[trigger] tally.item_error_counts[i]).index
            < tally.total_items
    &&& forall|i: int, j: int|
        0 <= i < j < tally.item_error_counts.len() ==> (
        #[trigger] tally.item_error_counts[i]).index < (
        #[trigger] tally.item_error_counts[j]).index
}

/// Whether a record agrees with itself. No error has two numbers.
pub open spec fn valid_store(store: Store) -> bool {
    &&& store.errors.no_duplicates()
    &&& valid_tally(store.foreign_functions, store.errors.len())
    &&& valid_tally(store.static_items, store.errors.len())
    &&& valid_tally(store.rust_functions, store.errors.len())
}

impl ErrorCount {
    /// Whether each calling convention is listed once.
    pub open spec fn wf(self) -> bool {
        forall|i: int, j: int|
            0 <= i < j < self.abis@.len() ==> (#[trigger] self.abis@[i]).name@ != (
            #[trigger] self.abis@[j]).name@
    }
}

impl FfickleLate {
    /// Whether the record is in order: the numbers of the errors run from zero
    /// up without a gap, and what it says agrees with itself.
    pub open spec fn wf(self) -> bool {
        &&& forall|id: usize| #[trigger]
            self.error_id_map@.contains_key(id) <==> id < self.error_id_count
        &&& self.foreign_functions.wf()
        &&& self.static_items.wf()
        &&& self.rust_functions.wf()
        &&& valid_store(self@)
    }

    /// Whether the counters have room for one more item of the calling
    /// convention `abi` with at most `errors` errors.
    pub open spec fn has_room(
        self,
        item_type: ForeignItemType,
        abi: Seq<char>,
        errors: nat,
    ) -> bool {
        &&& self@.tally(item_type).total_items < usize::MAX
        &&& abi_count(self@.tally(item_type), abi) < usize::MAX
        &&& self.error_id_count + errors <= usize::MAX
    }
}

/// Errors that are known keep their numbers, whatever is observed later; none
/// gets a second number; and every error observed has one.
pub proof fn lemma_register_all(
    known: Seq<ForeignError>,
    observed: Seq<Observation>,
    abi: Seq<char>,
)
    requires
        known.no_duplicates(),
    ensures
        known.is_prefix_of(register_all(known, observed, abi)),
        register_all(known, observed, abi).no_duplicates(),
        register_all(known, observed, abi).len() <= known.len() + observed.len(),
        forall|i: int|
            0 <= i < observed.len() ==> register_all(known, observed, abi).contains(
                foreign_error(#[trigger] observed[i], abi),
            ),
    decreases observed.len(),
{
    if observed.len() > 0 {
        lemma_register_all(known, observed.drop_last(), abi);
        let before = register_all(known, observed.drop_last(), abi);
        let after = register_all(known, observed, abi);
        let error = foreign_error(observed.last(), abi);
        assert(after.contains(error)) by {
            if !before.contains(error) {
                assert(after[after.len() - 1] == error);
            }
        }
        assert forall|i: int| 0 <= i < observed.len() implies after.contains(
            foreign_error(#[trigger] observed[i], abi),
        ) by {
            if i < observed.len() - 1 {
                let e = foreign_error(observed[i], abi);
                assert(observed.drop_last()[i] == observed[i]);
                assert(before.contains(e));
                let k = choose|k: int| 0 <= k < before.len() && before[k] == e;
                assert(after[k] == e);
            }
        }
    }
}

/// An error was found somewhere exactly if it was observed.
pub proof fn lemma_locations_of(observed: Seq<Observation>, abi: Seq<char>, error: ForeignError)
    ensures
        locations_of(observed, abi, error).len() <= observed.len(),
        locations_of(observed, abi, error).len() > 0 <==> exists|i: int|
            0 <= i < observed.len() && foreign_error(#[trigger] observed[i], abi) == error,
    decreases observed.len(),
{
    if observed.len() > 0 {
        lemma_locations_of(observed.drop_last(), abi, error);
        if foreign_error(observed.last(), abi) == error {
            assert(foreign_error(observed[observed.len() - 1], abi) == error);
        }
        if locations_of(observed.drop_last(), abi, error).len() > 0 {
            let i = choose|i: int|
                0 <= i < observed.drop_last().len() && foreign_error(
                    #[trigger] observed.drop_last()[i],
                    abi,
                ) == error;
            assert(foreign_error(observed[i], abi) == error);
        }
        if exists|i: int|
            0 <= i < observed.len() && foreign_error(#[trigger] observed[i], abi) == error {
            let i = choose|i: int|
                0 <= i < observed.len() && foreign_error(#[trigger] observed[i], abi) == error;
            if i < observed.len() - 1 {
                assert(foreign_error(observed.drop_last()[i], abi) == error);
            }
        }
    }
}

/// Recording an item keeps the record in agreement with itself.
pub proof fn lemma_record_item_valid(
    store: Store,
    observed: Seq<Observation>,
    abi: Seq<char>,
    item_type: ForeignItemType,
    ignored: bool,
)
    requires
        valid_store(store),
        observed.len() <= usize::MAX,
        store.errors.len() + observed.len() <= usize::MAX,
    ensures
        valid_store(record_item(store, observed, abi, item_type, ignored)),
{
    lemma_register_all(store.errors, observed, abi);
    let errors = register_all(store.errors, observed, abi);
    let tally = store.tally(item_type);
    let item = item_record(errors, observed, abi, tally.total_items, ignored);
    if observed.len() > 0 {
        assert(valid_item(item, errors.len())) by {
            assert(item.counts.dom() =~= item.locations.dom());
            let error = foreign_error(observed[0], abi);
            let k = choose|k: int| 0 <= k < errors.len() && errors[k] == error;
            lemma_locations_of(observed, abi, error);
            assert(item.counts.contains_key(k as usize));
            assert forall|id: usize| #[trigger] item.counts.contains_key(id) implies {
                &&& id < errors.len()
                &&& item.counts[id] as nat == item.locations[id].len()
                &&& item.counts[id] > 0
            } by {
                lemma_locations_of(observed, abi, errors[id as int]);
            }
        }
    }
    let after = record_item(store, observed, abi, item_type, ignored);
    assert forall|i: int| 0 <= i < tally.item_error_counts.len() implies valid_item(
        #[trigger] tally.item_error_counts[i],
        errors.len(),
    ) by {
        assert(valid_item(tally.item_error_counts[i], store.errors.len()));
    }
    assert(valid_tally(after.tally(item_type), errors.len()));
    assert(forall|t: Tally|
        valid_tally(t, store.errors.len()) ==> #[trigger] valid_tally(t, errors.len()));
}

/// Counting a calling convention keeps the record in agreement with itself.
pub proof fn lemma_count_abi_valid(store: Store, abi: Seq<char>, item_type: ForeignItemType)
    requires
        valid_store(store),
    ensures
        valid_store(count_abi(store, abi, item_type)),
{
}

impl Default for ItemErrorCounts {
    /// An item without errors.
    fn default() -> (r: ItemErrorCounts)
        ensures
            r.counts@ == Map::<usize, usize>::empty(),
            r.locations@ == Map::<usize, Vec<String>>::empty(),
            r.index == 0,
            !r.ignored,
    {
        ItemErrorCounts {
            counts: HashMap::new(),
            locations: HashMap::new(),
            index: 0,
            ignored: false,
        }
    }
}

impl Default for ErrorCount {
    /// No items.
    fn default() -> (r: ErrorCount)
        ensures
            r.wf(),
            r@ == (Tally {
                total_items: 0,
                item_error_counts: Seq::empty(),
                abis: Map::empty(),
            }),
    {
        let r = ErrorCount {
            total_items: 0,
            item_error_counts: Vec::new(),
            abis: Vec::new(),
        };
        assert(r@.item_error_counts =~= Seq::empty());
        assert(r@.abis =~= Map::empty());
        r
    }
}

/// The record of nothing.
pub open spec fn empty_store() -> Store {
    let tally = Tally { total_items: 0, item_error_counts: Seq::empty(), abis: Map::empty() };
    Store {
        errors: Seq::empty(),
        foreign_functions: tally,
        static_items: tally,
        rust_functions: tally,
        decl_lint_disabled_for_crate: false,
        defn_lint_disabled_for_crate: false,
    }
}

impl Default for FfickleLate {
    /// The record of nothing.
    fn default() -> (r: FfickleLate)
        ensures
            r.wf(),
            r@ == empty_store(),
    {
        let r = FfickleLate {
            error_id_count: 0,
            error_id_map: HashMap::new(),
            foreign_functions: ErrorCount::default(),
            static_items: ErrorCount::default(),
            rust_functions: ErrorCount::default(),
            decl_lint_disabled_for_crate: false,
            defn_lint_disabled_for_crate: false,
        };
        assert(r@.errors =~= Seq::empty());
        r
    }
}

impl ForeignTypeError {
    /// Whether two errors say the same.
    fn same(&self, other: &ForeignTypeError) -> (r: bool)
        ensures
            r == (self@ == other@),
    {
        self.discriminant == other.discriminant && self.str_rep == other.str_rep && self.abi
            == other.abi && self.reason == other.reason
    }
}

impl ErrorCount {
    /// Counts one more item of a calling convention.
    fn count(&mut self, abi: &str)
        requires
            old(self).wf(),
            abi_count(old(self)@, abi@) < usize::MAX,
        ensures
            final(self).wf(),
            final(self)@ == (Tally {
                abis: old(self)@.abis.insert(abi@, abi_count(old(self)@, abi@) + 1),
                ..old(self)@
            }),
    {
        let name = abi.to_owned();
        let mut i: usize = 0;
        while i < self.abis.len()
            invariant
                i <= self.abis@.len(),
                *self == *old(self),
                self.wf(),
                name@ == abi@,
                abi_count(old(self)@, abi@) < usize::MAX,
                forall|j: int| 0 <= j < i ==> (#[trigger] self.abis@[j]).name@ != abi@,
            decreases self.abis.len() - i,
        {
            if self.abis[i].name == name {
                assert(abi_place(self.abis@, abi@) == i);
                let count = self.abis[i].count + 1;
                self.abis.set(i, AbiCount { name, count });
                proof {
                    lemma_abi_counted(old(self).abis@, self.abis@, i as int);
                }
                return;
            }
            i = i + 1;
        }
        self.abis.push(AbiCount { name, count: 1 });
        proof {
            assert(self.abis@.drop_last() =~= old(self).abis@);
            lemma_abi_added(old(self).abis@, self.abis@);
        }
    }

    /// How many items have a calling convention.
    fn count_of(&self, abi: &str) -> (r: usize)
        requires
            self.wf(),
        ensures
            r == abi_count(self@, abi@),
    {
        let name = abi.to_owned();
        let mut i: usize = 0;
        while i < self.abis.len()
            invariant
                i <= self.abis@.len(),
                self.wf(),
                name@ == abi@,
                forall|j: int| 0 <= j < i ==> (#[trigger] self.abis@[j]).name@ != abi@,
            decreases self.abis.len() - i,
        {
            if self.abis[i].name == name {
                assert(abi_place(self.abis@, abi@) == i);
                return self.abis[i].count;
            }
            i = i + 1;
        }
        0
    }
}

proof fn lemma_abi_counted(before: Seq<AbiCount>, after: Seq<AbiCount>, i: int)
    requires
        0 <= i < before.len(),
        after.len() == before.len(),
        forall|j: int, k: int|
            0 <= j < k < before.len() ==> (#[trigger] before[j]).name@ != (
            #[trigger] before[k]).name@,
        forall|j: int| 0 <= j < before.len() && j != i ==> #[trigger] after[j] == before[j],
        after[i].name@ == before[i].name@,
    ensures
        forall|j: int, k: int|
            0 <= j < k < after.len() ==> (#[trigger] after[j]).name@ != (
            #[trigger] after[k]).name@,
        abi_counts(after) == abi_counts(before).insert(before[i].name@, after[i].count as nat),
{
    let name = before[i].name@;
    assert(forall|j: int| 0 <= j < before.len() ==> (#[trigger] after[j]).name@ == before[j].name@);
    assert forall|n: Seq<char>| abi_listed(after, n) == abi_listed(before, n) by {
        if abi_listed(before, n) {
            let k = abi_place(before, n);
            assert(after[k].name@ == n);
        }
        if abi_listed(after, n) {
            let k = abi_place(after, n);
            assert(before[k].name@ == n);
        }
    }
    assert forall|n: Seq<char>| abi_listed(before, n) && n != name implies abi_counts(after)[n]
        == abi_counts(before)[n] by {
        let k = abi_place(before, n);
        assert(after[k].name@ == n);
        assert(abi_place(after, n) == k);
    }
    assert(abi_listed(after, name)) by {
        assert(after[i].name@ == name);
    }
    assert(abi_place(after, name) == i);
    assert(abi_listed(before, name));
    assert(abi_counts(after) =~= abi_counts(before).insert(name, after[i].count as nat));
}

proof fn lemma_abi_added(before: Seq<AbiCount>, after: Seq<AbiCount>)
    requires
        after.len() == before.len() + 1,
        after.drop_last() == before,
        forall|j: int, k: int|
            0 <= j < k < before.len() ==> (#[trigger] before[j]).name@ != (
            #[trigger] before[k]).name@,
        forall|j: int| 0 <= j < before.len() ==> (#[trigger] before[j]).name@ != after.last().name@,
    ensures
        forall|j: int, k: int|
            0 <= j < k < after.len() ==> (#[trigger] after[j]).name@ != (
            #[trigger] after[k]).name@,
        !abi_listed(before, after.last().name@),
        abi_counts(after) == abi_counts(before).insert(
            after.last().name@,
            after.last().count as nat,
        ),
{
    let name = after.last().name@;
    let last = after.len() - 1;
    assert(forall|j: int| 0 <= j < before.len() ==> #[trigger] after[j] == before[j]) by {
        assert(forall|j: int|
            0 <= j < before.len() ==> after.drop_last()[j] == #[trigger] before[j]);
    }
    assert forall|n: Seq<char>| abi_listed(after, n) == (abi_listed(before, n) || n == name) by {
        if abi_listed(before, n) {
            let k = abi_place(before, n);
            assert(after[k].name@ == n);
        }
        if n == name {
            assert(after[last].name@ == n);
        }
        if abi_listed(after, n) && n != name {
            let k = abi_place(after, n);
            assert(before[k].name@ == n);
        }
    }
    assert forall|n: Seq<char>| abi_listed(before, n) implies abi_counts(after)[n] == abi_counts(
        before,
    )[n] by {
        let k = abi_place(before, n);
        assert(after[k].name@ == n);
        assert(abi_place(after, n) == k);
    }
    assert(abi_place(after, name) == last) by {
        assert(after[last].name@ == name);
    }
    assert(abi_counts(after) =~= abi_counts(before).insert(name, after.last().count as nat));
}

/// One more observation in an item, whose error has the number `id` afterwards:
/// that error is counted once more and found at one more place.
proof fn lemma_item_record_step(
    known: Seq<ForeignError>,
    observed: Seq<Observation>,
    abi: Seq<char>,
    index: nat,
    ignored: bool,
    id: usize,
)
    requires
        known.no_duplicates(),
        observed.len() > 0,
        observed.len() <= usize::MAX,
        id < register_all(known, observed, abi).len(),
        register_all(known, observed, abi)[id as int] == foreign_error(observed.last(), abi),
        register_all(known, observed, abi).len() <= usize::MAX,
    ensures
        ({
            let errors = register_all(known, observed.drop_last(), abi);
            let before = item_record(errors, observed.drop_last(), abi, index, ignored);
            let after = item_record(
                register_all(known, observed, abi),
                observed,
                abi,
                index,
                ignored,
            );
            let count = if before.counts.contains_key(id) {
                before.counts[id]
            } else {
                0
            };
            let places = if before.locations.contains_key(id) {
                before.locations[id]
            } else {
                Seq::empty()
            };
            &&& count < observed.len()
            &&& after.counts == before.counts.insert(id, (count + 1) as usize)
            &&& after.locations == before.locations.insert(
                id,
                places.push(observed.last().location),
            )
        }),
{
    let prior = observed.drop_last();
    let errors = register_all(known, prior, abi);
    let errors2 = register_all(known, observed, abi);
    let before = item_record(errors, prior, abi, index, ignored);
    let after = item_record(errors2, observed, abi, index, ignored);
    let error = foreign_error(observed.last(), abi);
    lemma_register_all(known, prior, abi);
    lemma_register_all(known, observed, abi);
    lemma_locations_of(prior, abi, error);
    lemma_locations_of(observed, abi, error);
    // An error without a number has not been observed yet.
    assert(id >= errors.len() ==> locations_of(prior, abi, error).len() == 0) by {
        if id >= errors.len() && locations_of(prior, abi, error).len() > 0 {
            let i = choose|i: int|
                0 <= i < prior.len() && foreign_error(#[trigger] prior[i], abi) == error;
            assert(errors.contains(foreign_error(prior[i], abi)));
            let k = choose|k: int| 0 <= k < errors.len() && errors[k] == error;
            assert(errors2[k] == error);
        }
    }
    assert forall|other: usize| other != id implies occurs(errors2, observed, abi, other)
        == occurs(errors, prior, abi, other) && (occurs(errors, prior, abi, other)
        ==> locations_of(observed, abi, errors2[other as int]) == locations_of(
        prior,
        abi,
        errors[other as int],
    )) by {
        if other < errors2.len() {
            assert(errors2[other as int] != error);
            if other >= errors.len() {
                assert(errors2[errors2.len() - 1] == error);
            } else {
                assert(errors2[other as int] == errors[other as int]);
            }
        }
    }
    assert(occurs(errors2, observed, abi, id));
    assert(id < errors.len() ==> errors[id as int] == error);
    assert(after.counts =~= before.counts.insert(
        id,
        locations_of(observed, abi, error).len() as usize,
    ));
    assert(after.locations =~= before.locations.insert(id, locations_of(observed, abi, error)));
    let prior_places = locations_of(prior, abi, error);
    assert(before.counts.contains_key(id) <==> prior_places.len() > 0);
    assert(prior_places.len() == 0 ==> prior_places =~= Seq::empty());
    assert(locations_of(observed, abi, error) == prior_places.push(observed.last().location));
}

impl FfickleLate {
    /// The number of an error, if it is known.
    fn error_id(&self, error: &ForeignTypeError) -> (r: Option<usize>)
        requires
            self.wf(),
        ensures
            match r {
                Some(id) => id < self.error_id_count && self@.errors[id as int] == error@,
                None => !self@.errors.contains(error@),
            },
    {
        let mut id: usize = 0;
        while id < self.error_id_count
            invariant
                id <= self.error_id_count,
                self.wf(),
                forall|k: int| 0 <= k < id ==> #[trigger] self@.errors[k] != error@,
            decreases self.error_id_count - id,
        {
            match self.error_id_map.get(&id) {
                Some(known) => {
                    assert(self@.errors[id as int] == known@);
                    if known.same(error) {
                        return Some(id);
                    }
                },
                None => {},
            }
            id = id + 1;
        }
        None
    }

    /// Whether the counters have room for one more item of the calling
    /// convention `abi` with at most `errors` errors.
    pub fn has_room_for(&self, item_type: ForeignItemType, abi: &str, errors: usize) -> (r: bool)
        requires
            self.wf(),
        ensures
            r == self.has_room(item_type, abi@, errors as nat),
    {
        let tally = match item_type {
            ForeignItemType::RustFn => &self.rust_functions,
            ForeignItemType::ForeignFn => &self.foreign_functions,
            ForeignItemType::StaticItem => &self.static_items,
        };
        tally.total_items < usize::MAX && tally.count_of(abi) < usize::MAX && self.error_id_count
            <= usize::MAX - errors
    }

    /// Whether there is room to count one more item of the calling convention
    /// `abi`.
    pub fn has_room_to_count(&self, item_type: ForeignItemType, abi: &str) -> (r: bool)
        requires
            self.wf(),
        ensures
            r == (abi_count(self@.tally(item_type), abi@) < usize::MAX),
    {
        match item_type {
            ForeignItemType::RustFn => self.rust_functions.count_of(abi) < usize::MAX,
            ForeignItemType::ForeignFn => self.foreign_functions.count_of(abi) < usize::MAX,
            ForeignItemType::StaticItem => self.static_items.count_of(abi) < usize::MAX,
        }
    }

    /// Counts one more item of a calling convention.
    pub fn record_abi(&mut self, abi_string: &str, item_type: ForeignItemType)
        requires
            old(self).wf(),
            abi_count(old(self)@.tally(item_type), abi_string@) < usize::MAX,
        ensures
            final(self).wf(),
            final(self).error_id_count == old(self).error_id_count,
            final(self)@ == count_abi(old(self)@, abi_string@, item_type),
    {
        match item_type {
            ForeignItemType::RustFn => self.rust_functions.count(abi_string),
            ForeignItemType::ForeignFn => self.foreign_functions.count(abi_string),
            ForeignItemType::StaticItem => self.static_items.count(abi_string),
        }
        proof {
            lemma_count_abi_valid(old(self)@, abi_string@, item_type);
            assert(self@.errors =~= old(self)@.errors);
            assert(self@ =~= count_abi(old(self)@, abi_string@, item_type));
        }
    }

    /// Records one more item and the errors observed in it.
    pub fn record_errors(
        &mut self,
        errors: Vec<ObservedImproperType>,
        abi_string: &str,
        item_type: ForeignItemType,
        were_ignored: bool,
    )
        requires
            old(self).wf(),
            old(self)@.tally(item_type).total_items < usize::MAX,
            old(self).error_id_count + errors@.len() <= usize::MAX,
        ensures
            final(self).wf(),
            final(self)@ == record_item(
                old(self)@,
                observations(errors@),
                abi_string@,
                item_type,
                were_ignored,
            ),
    {
        let ghost observed = observations(errors@);
        let ghost known = self@.errors;
        let index = match item_type {
            ForeignItemType::RustFn => self.rust_functions.total_items,
            ForeignItemType::ForeignFn => self.foreign_functions.total_items,
            ForeignItemType::StaticItem => self.static_items.total_items,
        };
        let mut err_counts = ItemErrorCounts::default();
        err_counts.index = index;
        err_counts.ignored = were_ignored;
        let mut i: usize = 0;
        proof {
            assert(observed.take(0) =~= Seq::empty());
            assert(err_counts@ =~= item_record(
                known,
                observed.take(0),
                abi_string@,
                index as nat,
                were_ignored,
            ));
            assert(self@ =~= (Store {
                errors: register_all(known, observed.take(0), abi_string@),
                ..old(self)@
            }));
        }
        while i < errors.len()
            invariant
                i <= errors@.len(),
                observed == observations(errors@),
                old(self).wf(),
                known == old(self)@.errors,
                old(self).error_id_count + errors@.len() <= usize::MAX,
                self.wf(),
                self@ == (Store {
                    errors: register_all(known, observed.take(i as int), abi_string@),
                    ..old(self)@
                }),
                err_counts@ == item_record(
                    self@.errors,
                    observed.take(i as int),
                    abi_string@,
                    index as nat,
                    were_ignored,
                ),
            decreases errors.len() - i,
        {
            let ghost so_far = observed.take(i as int);
            let ghost next = observed.take(i + 1);
            proof {
                assert(next.drop_last() =~= so_far);
                lemma_register_all(known, so_far, abi_string@);
                lemma_register_all(known, next, abi_string@);
            }
            let err = &errors[i];
            let foreign_err = ForeignTypeError {
                discriminant: err.discriminant,
                str_rep: err.str_rep.clone(),
                abi: without_quotes(abi_string),
                reason: err.reason,
            };
            let ghost error = foreign_error(observed[i as int], abi_string@);
            assert(foreign_err@ == error);
            let id: usize = match self.error_id(&foreign_err) {
                Some(id) => {
                    assert(self@.errors.contains(error));
                    id
                },
                None => {
                    let id = self.error_id_count;
                    self.register(foreign_err);
                    id
                },
            };
            proof {
                lemma_item_record_step(
                    known,
                    next,
                    abi_string@,
                    index as nat,
                    were_ignored,
                    id,
                );
            }
            err_counts.add(id, err.location.as_str());
            i = i + 1;
        }
        assert(observed.take(observed.len() as int) =~= observed);
        proof {
            lemma_record_item_valid(old(self)@, observed, abi_string@, item_type, were_ignored);
            lemma_register_all(known, observed, abi_string@);
        }
        let found = errors.len() != 0;
        match item_type {
            ForeignItemType::RustFn => self.rust_functions.add_item(err_counts, found),
            ForeignItemType::ForeignFn => self.foreign_functions.add_item(err_counts, found),
            ForeignItemType::StaticItem => self.static_items.add_item(err_counts, found),
        }
        assert(self@.errors =~= register_all(known, observed, abi_string@));
        assert(self@ =~= record_item(old(self)@, observed, abi_string@, item_type, were_ignored));
    }

    /// Gives an error that is not known the next number.
    fn register(&mut self, error: ForeignTypeError)
        requires
            old(self).wf(),
            !old(self)@.errors.contains(error@),
            old(self).error_id_count < usize::MAX,
        ensures
            final(self).wf(),
            final(self)@ == (Store { errors: old(self)@.errors.push(error@), ..old(self)@ }),
    {
        self.error_id_map.insert(self.error_id_count, error);
        self.error_id_count = self.error_id_count + 1;
        assert(self@.errors =~= old(self)@.errors.push(error@));
        assert(forall|t: Tally|
            valid_tally(t, old(self)@.errors.len()) ==> #[trigger] valid_tally(
                t,
                self@.errors.len(),
            ));
    }
}

impl ItemErrorCounts {
    /// Counts the error of the number `id` once more.
    fn add(&mut self, id: usize, location: &str)
        requires
            old(self)@.counts.contains_key(id) ==> old(self)@.counts[id] < usize::MAX,
        ensures
            final(self)@ == (ItemRecord {
                counts: old(self)@.counts.insert(
                    id,
                    if old(self)@.counts.contains_key(id) {
                        (old(self)@.counts[id] + 1) as usize
                    } else {
                        1
                    },
                ),
                locations: old(self)@.locations.insert(
                    id,
                    if old(self)@.locations.contains_key(id) {
                        old(self)@.locations[id].push(location@)
                    } else {
                        seq![location@]
                    },
                ),
                ..old(self)@
            }),
    {
        let mut places: Vec<String> = match self.locations.remove(&id) {
            Some(places) => places,
            None => Vec::new(),
        };
        let ghost before = texts(places@);
        places.push(location.to_owned());
        assert(texts(places@) =~= before.push(location@));
        self.locations.insert(id, places);
        let count: usize = match self.counts.get(&id) {
            Some(count) => *count,
            None => 0,
        };
        self.counts.insert(id, count + 1);
        assert(self@.locations =~= old(self)@.locations.insert(id, before.push(location@)));
        assert(!old(self)@.locations.contains_key(id) ==> before.push(location@) =~= seq![
            location@,
        ]);
    }
}

impl ErrorCount {
    /// Counts one more item, and lists it if it has errors.
    fn add_item(&mut self, item: ItemErrorCounts, found: bool)
        requires
            old(self).wf(),
            old(self).total_items < usize::MAX,
        ensures
            final(self).wf(),
            final(self)@ == (Tally {
                total_items: old(self)@.total_items + 1,
                item_error_counts: if found {
                    old(self)@.item_error_counts.push(item@)
                } else {
                    old(self)@.item_error_counts
                },
                ..old(self)@
            }),
    {
        self.total_items = self.total_items + 1;
        if found {
            self.item_error_counts.push(item);
            assert(self@.item_error_counts =~= old(self)@.item_error_counts.push(item@));
        }
    }
}

/// An error keeps its number, and no other error gets it, whatever is recorded
/// later. Items of other kinds, the counts of calling conventions and the notes
/// on the crate stay as they are.
pub proof fn lemma_record_item_frame(
    store: Store,
    observed: Seq<Observation>,
    abi: Seq<char>,
    item_type: ForeignItemType,
    ignored: bool,
)
    requires
        valid_store(store),
    ensures
        ({
            let after = record_item(store, observed, abi, item_type, ignored);
            &&& store.errors.is_prefix_of(after.errors)
            &&& forall|id: int, other: int|
                0 <= id < store.errors.len() && 0 <= other < after.errors.len()
                    && #[trigger] after.errors[other] == #[trigger] store.errors[id] ==> other == id
            &&& forall|kind: ForeignItemType|
                kind != item_type ==> #[trigger] after.tally(kind) == store.tally(kind)
            &&& after.tally(item_type).abis == store.tally(item_type).abis
            &&& store.tally(item_type).item_error_counts.is_prefix_of(
                after.tally(item_type).item_error_counts,
            )
            &&& after.decl_lint_disabled_for_crate == store.decl_lint_disabled_for_crate
            &&& after.defn_lint_disabled_for_crate == store.defn_lint_disabled_for_crate
        }),
{
    lemma_register_all(store.errors, observed, abi);
    let after = record_item(store, observed, abi, item_type, ignored);
    assert forall|id: int, other: int|
        0 <= id < store.errors.len() && 0 <= other < after.errors.len()
            && #[trigger] after.errors[other] == #[trigger] store.errors[id] implies other
        == id by {
        assert(after.errors[id] == store.errors[id]);
    }
}

/// The same error has the same number in any two items.
pub proof fn lemma_same_error_same_number(
    store: Store,
    observed: Seq<Observation>,
    abi: Seq<char>,
    item_type: ForeignItemType,
    ignored: bool,
    i: int,
    later: Seq<Observation>,
    later_abi: Seq<char>,
    later_type: ForeignItemType,
    later_ignored: bool,
    j: int,
)
    requires
        valid_store(store),
        store.errors.len() + observed.len() + later.len() <= usize::MAX,
        0 <= i < observed.len(),
        0 <= j < later.len(),
        foreign_error(observed[i], abi) == foreign_error(later[j], later_abi),
    ensures
        ({
            let one = record_item(store, observed, abi, item_type, ignored);
            let two = record_item(one, later, later_abi, later_type, later_ignored);
            exists|id: usize|
                {
                    &&& id < one.errors.len()
                    &&& #[trigger] one.errors[id as int] == foreign_error(observed[i], abi)
                    &&& two.errors[id as int] == foreign_error(later[j], later_abi)
                    &&& one.tally(item_type).item_error_counts.last().counts.contains_key(id)
                    &&& two.tally(later_type).item_error_counts.last().counts.contains_key(id)
                }
        }),
{
    let error = foreign_error(observed[i], abi);
    let one = record_item(store, observed, abi, item_type, ignored);
    let two = record_item(one, later, later_abi, later_type, later_ignored);
    lemma_record_item_valid(store, observed, abi, item_type, ignored);
    lemma_register_all(store.errors, observed, abi);
    lemma_register_all(one.errors, later, later_abi);
    lemma_locations_of(observed, abi, error);
    lemma_locations_of(later, later_abi, error);
    assert(one.errors.contains(foreign_error(observed[i], abi)));
    let k = choose|k: int| 0 <= k < one.errors.len() && one.errors[k] == error;
    let id = k as usize;
    assert(one.errors[id as int] == error);
    assert(two.errors[id as int] == error);
}

/// How often errors with numbers below `n` occur in an item.
pub open spec fn count_below(item: ItemRecord, n: nat) -> nat
    decreases n,
{
    if n == 0 {
        0
    } else {
        let id = (n - 1) as usize;
        count_below(item, (n - 1) as nat) + if item.counts.contains_key(id) {
            item.counts[id] as nat
        } else {
            0
        }
    }
}

/// The counts of an item add up to the number of observations in it.
pub proof fn lemma_counts_complete(
    store: Store,
    observed: Seq<Observation>,
    abi: Seq<char>,
    index: nat,
    ignored: bool,
)
    requires
        valid_store(store),
        store.errors.len() + observed.len() <= usize::MAX,
    ensures
        ({
            let errors = register_all(store.errors, observed, abi);
            count_below(item_record(errors, observed, abi, index, ignored), errors.len())
                == observed.len()
        }),
{
    let errors = register_all(store.errors, observed, abi);
    lemma_register_all(store.errors, observed, abi);
    lemma_counts_of_prefix(errors, observed, abi, index, ignored);
}

/// The counts of an item add up, provided that all its errors have numbers.
proof fn lemma_counts_of_prefix(
    errors: Seq<ForeignError>,
    observed: Seq<Observation>,
    abi: Seq<char>,
    index: nat,
    ignored: bool,
)
    requires
        errors.no_duplicates(),
        errors.len() <= usize::MAX,
        observed.len() <= usize::MAX,
        forall|i: int|
            0 <= i < observed.len() ==> errors.contains(
                foreign_error(#[trigger] observed[i], abi),
            ),
    ensures
        count_below(item_record(errors, observed, abi, index, ignored), errors.len())
            == observed.len(),
    decreases observed.len(),
{
    let item = item_record(errors, observed, abi, index, ignored);
    if observed.len() == 0 {
        lemma_count_below_empty(item, errors.len());
    } else {
        let prior = observed.drop_last();
        let before = item_record(errors, prior, abi, index, ignored);
        assert forall|i: int| 0 <= i < prior.len() implies errors.contains(
            foreign_error(#[trigger] prior[i], abi),
        ) by {
            assert(prior[i] == observed[i]);
        }
        lemma_counts_of_prefix(errors, prior, abi, index, ignored);
        let error = foreign_error(observed.last(), abi);
        assert(errors.contains(foreign_error(observed[observed.len() - 1], abi)));
        let k = choose|k: int| 0 <= k < errors.len() && errors[k] == error;
        lemma_count_below_step(errors, observed, abi, index, ignored, k, errors.len());
    }
}

proof fn lemma_count_below_empty(item: ItemRecord, n: nat)
    requires
        forall|id: usize| !(#[trigger] item.counts.contains_key(id)),
    ensures
        count_below(item, n) == 0,
    decreases n,
{
    if n > 0 {
        lemma_count_below_empty(item, (n - 1) as nat);
    }
}

/// One more observation of the `k`th error adds one to the counts.
proof fn lemma_count_below_step(
    errors: Seq<ForeignError>,
    observed: Seq<Observation>,
    abi: Seq<char>,
    index: nat,
    ignored: bool,
    k: int,
    n: nat,
)
    requires
        errors.no_duplicates(),
        n <= errors.len() <= usize::MAX,
        0 < observed.len() <= usize::MAX,
        0 <= k < errors.len(),
        errors[k] == foreign_error(observed.last(), abi),
    ensures
        count_below(item_record(errors, observed, abi, index, ignored), n) == count_below(
            item_record(errors, observed.drop_last(), abi, index, ignored),
            n,
        ) + if k < n {
            1nat
        } else {
            0nat
        },
    decreases n,
{
    if n > 0 {
        lemma_count_below_step(errors, observed, abi, index, ignored, k, (n - 1) as nat);
        let id = n - 1;
        lemma_locations_of(observed, abi, errors[id]);
        lemma_locations_of(observed.drop_last(), abi, errors[id]);
        assert(id != k ==> errors[id] != errors[k]);
    }
}

/// It makes no difference whether an item is recorded before or after its
/// calling convention is counted.
pub proof fn lemma_count_and_record_commute(
    store: Store,
    observed: Seq<Observation>,
    abi: Seq<char>,
    name: Seq<char>,
    item_type: ForeignItemType,
    ignored: bool,
)
    ensures
        record_item(count_abi(store, name, item_type), observed, abi, item_type, ignored)
            == count_abi(
            record_item(store, observed, abi, item_type, ignored),
            name,
            item_type,
        ),
{
}

/// Counting a calling convention changes no other count.
pub proof fn lemma_count_abi_frame(
    store: Store,
    abi: Seq<char>,
    item_type: ForeignItemType,
    kind: ForeignItemType,
    other: Seq<char>,
)
    ensures
        abi_count(count_abi(store, abi, item_type).tally(kind), other) == abi_count(
            store.tally(kind),
            other,
        ) + if kind == item_type && other == abi {
            1nat
        } else {
            0nat
        },
        count_abi(store, abi, item_type).errors == store.errors,
        count_abi(store, abi, item_type).tally(kind).total_items == store.tally(kind).total_items,
        count_abi(store, abi, item_type).tally(kind).item_error_counts == store.tally(
            kind,
        ).item_error_counts,
{
}

/// No quotation mark is left in a text without its quotation marks.
pub proof fn lemma_unquoted(s: Seq<char>)
    ensures
        !unquoted(s).contains('"'),
        !s.contains('"') ==> unquoted(s) == s,
    decreases s.len(),
{
    if s.len() > 0 {
        lemma_unquoted(s.drop_last());
        if !s.contains('"') {
            assert(!s.drop_last().contains('"')) by {
                assert(forall|i: int| 0 <= i < s.drop_last().len() ==> s[i] == s.drop_last()[i]);
            }
            assert(s[s.len() - 1] != '"');
            assert(s =~= s.drop_last().push(s.last()));
        }
        if s.last() != '"' {
            let front = unquoted(s.drop_last());
            assert forall|i: int| 0 <= i < unquoted(s).len() implies unquoted(s)[i] != '"' by {
                if i < front.len() {
                    assert(front[i] != '"');
                }
            }
        }
    } else {
        assert(unquoted(s) =~= s);
    }
}

/// A calling convention that is printed in quotation marks is recorded by its
/// name.
pub proof fn lemma_unquoted_name(name: Seq<char>)
    requires
        !name.contains('"'),
    ensures
        unquoted(seq!['"'] + name + seq!['"']) == name,
{
    let open = seq!['"'] + name;
    assert((open + seq!['"']).drop_last() =~= open);
    lemma_unquoted_after(name);
    lemma_unquoted(name);
}

proof fn lemma_unquoted_after(s: Seq<char>)
    ensures
        unquoted(seq!['"'] + s) == unquoted(s),
    decreases s.len(),
{
    let open = seq!['"'] + s;
    if s.len() == 0 {
        assert(open.drop_last() =~= s);
        assert(open.last() == '"');
    } else {
        assert(open.drop_last() =~= seq!['"'] + s.drop_last());
        lemma_unquoted_after(s.drop_last());
    }
}

} // verus!
