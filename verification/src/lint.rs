//! What the lint does on the crate and on each of its items.

use vstd::prelude::*;

use crate::error::CheckError;
use crate::nullable::CItemKind;
use crate::report::{
    fn_report, input_count, lemma_fn_report_len, lemma_report_len, observations, report, FnDecl,
    Observation,
};
use crate::store::{abi_count, count_abi, record_item, FfickleLate, ForeignItemType, Store};
use crate::ty::{AbiKind, FnSig, Ty, TyCtxt};
use crate::visitor::ImproperCTypesVisitor;

verus! {

/// How a lint is set.
#[derive(Clone, Copy, Debug, PartialEq, Eq, Structural)]
pub enum Level {
    Allow,
    Expect,
    Warn,
    ForceWarn,
    Deny,
    Forbid,
}

/// A registered lint, and how it is set at the item under check.
#[derive(Debug)]
pub struct Lint {
    pub name: String,
    pub level: Level,
}

/// A calling convention: its kind, its name, and how it is printed.
#[derive(Debug)]
pub struct SpecAbi {
    pub kind: AbiKind,
    pub name: String,
    pub display: String,
}

/// A function of the crate.
#[derive(Debug)]
pub enum FnKind {
    ItemFn(SpecAbi),
    Method(SpecAbi),
    Closure,
}

/// An item of a foreign block.
#[derive(Debug)]
pub enum ForeignItemKind {
    Fn(FnSig, FnDecl),
    /// A static item of a type that is written at a place.
    Static(Ty, String),
    Type,
}

/// Whether the first lint of a name, from the `i`th on, is allowed; `None`
/// where there is none.
pub open spec fn lint_disabled_from(lints: Seq<Lint>, name: Seq<char>, i: int) -> Option<bool>
    decreases lints.len() - i,
{
    if i < 0 || i >= lints.len() {
        None
    } else if lints[i].name@ == name {
        Some(lints[i].level == Level::Allow)
    } else {
        lint_disabled_from(lints, name, i + 1)
    }
}

/// Whether the lint of a name is allowed; `None` where there is none.
pub open spec fn spec_lint_disabled(lints: Seq<Lint>, name: Seq<char>) -> Option<bool> {
    lint_disabled_from(lints, name, 0)
}

/// Whether a lint of a name is registered.
pub open spec fn spec_lint_registered(lints: Seq<Lint>, name: Seq<char>) -> bool {
    exists|i: int| 0 <= i < lints.len() && (#[trigger] lints[i]).name@ == name
}

/// Whether a lint of a name is registered.
pub fn lint_registered(lints: &Vec<Lint>, name: &str) -> (r: bool)
    ensures
        r == spec_lint_registered(lints@, name@),
{
    let wanted = name.to_owned();
    let mut i: usize = 0;
    while i < lints.len()
        invariant
            i <= lints@.len(),
            wanted@ == name@,
            forall|j: int| 0 <= j < i ==> (#[trigger] lints@[j]).name@ != name@,
        decreases lints.len() - i,
    {
        if lints[i].name == wanted {
            return true;
        }
        i = i + 1;
    }
    false
}

/// Whether the registered lint of a name is allowed. Of several of one name the
/// first counts.
pub fn lint_disabled(lints: &Vec<Lint>, name: &str) -> (r: bool)
    requires
        spec_lint_registered(lints@, name@),
    ensures
        spec_lint_disabled(lints@, name@) == Some(r),
{
    let wanted = name.to_owned();
    let mut i: usize = 0;
    while lints[i].name != wanted
        invariant
            i < lints@.len(),
            wanted@ == name@,
            spec_lint_registered(lints@, name@),
            forall|j: int| 0 <= j < i ==> (#[trigger] lints@[j]).name@ != name@,
        decreases lints.len() - i,
    {
        assert(i + 1 < lints@.len()) by {
            let j = choose|j: int| 0 <= j < lints@.len() && (#[trigger] lints@[j]).name@ == name@;
            assert(j > i);
        }
        i = i + 1;
    }
    proof {
        lemma_lint_disabled(lints@, name@, i as int);
    }
    lints[i].level == Level::Allow
}

/// A lint has a level exactly if it is registered.
pub proof fn lemma_lint_registered(lints: Seq<Lint>, name: Seq<char>)
    ensures
        spec_lint_disabled(lints, name) is Some <==> spec_lint_registered(lints, name),
{
    lemma_lint_registered_from(lints, name, 0);
}

proof fn lemma_lint_registered_from(lints: Seq<Lint>, name: Seq<char>, from: int)
    requires
        0 <= from,
    ensures
        lint_disabled_from(lints, name, from) is Some <==> exists|i: int|
            from <= i < lints.len() && (#[trigger] lints[i]).name@ == name,
    decreases lints.len() - from,
{
    if from < lints.len() {
        lemma_lint_registered_from(lints, name, from + 1);
    }
}

/// The lint is allowed exactly if the first of its name is set so.
pub proof fn lemma_lint_disabled(lints: Seq<Lint>, name: Seq<char>, i: int)
    requires
        0 <= i < lints.len(),
        lints[i].name@ == name,
        forall|j: int| 0 <= j < i ==> (#[trigger] lints[j]).name@ != name,
    ensures
        spec_lint_disabled(lints, name) == Some(lints[i].level == Level::Allow),
{
    lemma_lint_disabled_from(lints, name, 0, i);
}

proof fn lemma_lint_disabled_from(lints: Seq<Lint>, name: Seq<char>, from: int, i: int)
    requires
        0 <= from <= i < lints.len(),
        lints[i].name@ == name,
        forall|j: int| 0 <= j < i ==> (#[trigger] lints[j]).name@ != name,
    ensures
        lint_disabled_from(lints, name, from) == Some(lints[i].level == Level::Allow),
    decreases i - from,
{
    if from < i {
        lemma_lint_disabled_from(lints, name, from + 1, i);
    }
}

/// The calling convention of a function that has one of its own.
pub open spec fn fn_abi(kind: FnKind) -> Option<SpecAbi> {
    match kind {
        FnKind::ItemFn(abi) => Some(abi),
        FnKind::Method(abi) => Some(abi),
        FnKind::Closure => None,
    }
}

/// The record after the start of a crate.
pub open spec fn crate_outcome(store: Store, lints: Seq<Lint>) -> Result<Store, CheckError> {
    match (
        spec_lint_disabled(lints, "IMPROPER_CTYPES"@),
        spec_lint_disabled(lints, "IMPROPER_CTYPES_DEFINITIONS"@),
    ) {
        (Some(decl), Some(defn)) => Ok(
            Store {
                decl_lint_disabled_for_crate: decl,
                defn_lint_disabled_for_crate: defn,
                ..store
            },
        ),
        _ => Err(CheckError::UnknownLint),
    }
}

/// The record after a function. Its calling convention is counted. If foreign
/// code can call it and something is improper in it, that is recorded.
pub open spec fn fn_outcome(
    store: Store,
    tcx: TyCtxt,
    lints: Seq<Lint>,
    kind: FnKind,
    sig: FnSig,
    decl: FnDecl,
) -> Result<Store, CheckError> {
    match fn_abi(kind) {
        None => Ok(store),
        Some(abi) => {
            let counted = count_abi(store, abi.name@, ForeignItemType::RustFn);
            if abi.kind.spec_is_internal() {
                Ok(counted)
            } else {
                match fn_report(tcx, CItemKind::Definition, sig, decl) {
                    Err(e) => Err(e),
                    Ok(observed) => if observed.len() == 0 {
                        Ok(counted)
                    } else {
                        match spec_lint_disabled(lints, "IMPROPER_CTYPES_DEFINITIONS"@) {
                            None => Err(CheckError::UnknownLint),
                            Some(ignored) => Ok(
                                record_item(
                                    counted,
                                    observed,
                                    abi.display@,
                                    ForeignItemType::RustFn,
                                    ignored,
                                ),
                            ),
                        }
                    },
                }
            }
        },
    }
}

/// What is reported of a foreign item.
pub open spec fn foreign_item_report(tcx: TyCtxt, kind: ForeignItemKind) -> Result<
    Seq<Observation>,
    CheckError,
> {
    match kind {
        ForeignItemKind::Fn(sig, decl) => fn_report(tcx, CItemKind::Declaration, sig, decl),
        ForeignItemKind::Static(ty, span) => report(
            tcx,
            CItemKind::Declaration,
            span@,
            ty,
            true,
            false,
        ),
        ForeignItemKind::Type => Ok(Seq::empty()),
    }
}

/// Under which kind a foreign item is recorded; types are not.
pub open spec fn foreign_item_type(kind: ForeignItemKind) -> Option<ForeignItemType> {
    match kind {
        ForeignItemKind::Fn(_, _) => Some(ForeignItemType::ForeignFn),
        ForeignItemKind::Static(_, _) => Some(ForeignItemType::StaticItem),
        ForeignItemKind::Type => None,
    }
}

/// The record after an item of a foreign block. Its calling convention is
/// counted, and unless it is one of Rust's own the item is recorded, whether or
/// not anything is improper in it.
pub open spec fn foreign_item_outcome(
    store: Store,
    tcx: TyCtxt,
    lints: Seq<Lint>,
    abi: SpecAbi,
    kind: ForeignItemKind,
) -> Result<Store, CheckError> {
    match foreign_item_type(kind) {
        None => Ok(store),
        Some(item_type) => {
            let counted = count_abi(store, abi.name@, item_type);
            if abi.kind.spec_is_internal() {
                Ok(counted)
            } else {
                match foreign_item_report(tcx, kind) {
                    Err(e) => Err(e),
                    Ok(observed) => match spec_lint_disabled(lints, "IMPROPER_CTYPES"@) {
                        None => Err(CheckError::UnknownLint),
                        Some(ignored) => Ok(
                            record_item(counted, observed, abi.display@, item_type, ignored),
                        ),
                    },
                }
            }
        },
    }
}

/// The largest number of errors that a foreign item can have.
pub open spec fn max_errors(kind: ForeignItemKind) -> nat {
    match kind {
        ForeignItemKind::Fn(sig, decl) => input_count(sig, decl) + 1,
        ForeignItemKind::Static(_, _) => 1,
        ForeignItemKind::Type => 0,
    }
}

/// A foreign item has no more errors than types that are written in it.
pub proof fn lemma_foreign_item_report_len(tcx: TyCtxt, kind: ForeignItemKind)
    ensures
        foreign_item_report(tcx, kind) matches Ok(all) ==> all.len() <= max_errors(kind),
{
    match kind {
        ForeignItemKind::Fn(sig, decl) => lemma_fn_report_len(
            tcx,
            CItemKind::Declaration,
            sig,
            decl,
        ),
        ForeignItemKind::Static(ty, span) => lemma_report_len(
            tcx,
            CItemKind::Declaration,
            span@,
            ty,
            true,
            false,
        ),
        ForeignItemKind::Type => {},
    }
}

impl FfickleLate {
    /// Whether the counters have room for one more item of the calling
    /// convention `abi` with at most `errors` errors. Under a calling convention
    /// of Rust's own an item is only counted.
    pub open spec fn has_room_under(
        self,
        item_type: ForeignItemType,
        abi: SpecAbi,
        errors: nat,
    ) -> bool {
        if abi.kind.spec_is_internal() {
            abi_count(self@.tally(item_type), abi.name@) < usize::MAX
        } else {
            self.has_room(item_type, abi.name@, errors)
        }
    }

    /// Whether the counters have room for one more item of the calling
    /// convention `abi` with at most `errors` errors.
    pub fn has_room_for_item(
        &self,
        item_type: ForeignItemType,
        abi: &SpecAbi,
        errors: usize,
    ) -> (r: bool)
        requires
            self.wf(),
        ensures
            r == self.has_room_under(item_type, *abi, errors as nat),
    {
        if abi.kind.is_internal() {
            self.has_room_to_count(item_type, abi.name.as_str())
        } else {
            self.has_room_for(item_type, abi.name.as_str(), errors)
        }
    }

    /// Notes whether the lints are allowed for the crate as a whole. Where one
    /// of them is not registered, nothing changes.
    pub fn check_crate(&mut self, lints: &Vec<Lint>) -> (r: Result<(), CheckError>)
        requires
            old(self).wf(),
        ensures
            final(self).wf(),
            match crate_outcome(old(self)@, lints@) {
                Ok(store) => r is Ok && final(self)@ == store,
                Err(e) => r == Err::<(), CheckError>(e) && *final(self) == *old(self),
            },
    {
        proof {
            lemma_lint_registered(lints@, "IMPROPER_CTYPES"@);
            lemma_lint_registered(lints@, "IMPROPER_CTYPES_DEFINITIONS"@);
        }
        if !lint_registered(lints, "IMPROPER_CTYPES") || !lint_registered(
            lints,
            "IMPROPER_CTYPES_DEFINITIONS",
        ) {
            return Err(CheckError::UnknownLint);
        }
        self.decl_lint_disabled_for_crate = lint_disabled(lints, "IMPROPER_CTYPES");
        self.defn_lint_disabled_for_crate = lint_disabled(lints, "IMPROPER_CTYPES_DEFINITIONS");
        assert(self@.errors =~= old(self)@.errors);
        Ok(())
    }

    /// Checks a function of the crate. Where the check fails, nothing changes.
    pub fn check_fn(
        &mut self,
        tcx: &TyCtxt,
        lints: &Vec<Lint>,
        kind: &FnKind,
        sig: &FnSig,
        decl: &FnDecl,
    ) -> (r: Result<(), CheckError>)
        requires
            old(self).wf(),
            fn_abi(*kind) matches Some(abi) ==> old(self).has_room_under(
                ForeignItemType::RustFn,
                abi,
                input_count(*sig, *decl) + 1,
            ),
        ensures
            final(self).wf(),
            match fn_outcome(old(self)@, *tcx, lints@, *kind, *sig, *decl) {
                Ok(store) => r is Ok && final(self)@ == store,
                Err(e) => r == Err::<(), CheckError>(e) && *final(self) == *old(self),
            },
    {
        let abi = match kind {
            FnKind::ItemFn(abi) => abi,
            FnKind::Method(abi) => abi,
            FnKind::Closure => return Ok(()),
        };
        let mut vis = ImproperCTypesVisitor {
            cx: tcx,
            mode: CItemKind::Definition,
            errors: Vec::new(),
        };
        if vis.is_internal_abi(abi.kind) {
            self.record_abi(abi.name.as_str(), ForeignItemType::RustFn);
            return Ok(());
        }
        assert(observations(vis.errors@) =~= Seq::empty());
        match vis.check_foreign_fn(sig, decl) {
            Ok(()) => {},
            Err(e) => return Err(e),
        }
        let ghost observed = fn_report(*tcx, CItemKind::Definition, *sig, *decl)->Ok_0;
        proof {
            assert(Seq::empty() + observed =~= observed);
            lemma_fn_report_len(*tcx, CItemKind::Definition, *sig, *decl);
        }
        let errors = vis.errors;
        assert(observations(errors@).len() == errors@.len());
        if errors.len() > 0 {
            proof {
                lemma_lint_registered(lints@, "IMPROPER_CTYPES_DEFINITIONS"@);
            }
            if !lint_registered(lints, "IMPROPER_CTYPES_DEFINITIONS") {
                return Err(CheckError::UnknownLint);
            }
            let were_ignored = lint_disabled(lints, "IMPROPER_CTYPES_DEFINITIONS");
            self.record_abi(abi.name.as_str(), ForeignItemType::RustFn);
            self.record_errors(
                errors,
                abi.display.as_str(),
                ForeignItemType::RustFn,
                were_ignored,
            );
        } else {
            self.record_abi(abi.name.as_str(), ForeignItemType::RustFn);
        }
        Ok(())
    }

    /// Checks an item of a foreign block. Where the check fails, nothing
    /// changes.
    pub fn check_foreign_item(
        &mut self,
        tcx: &TyCtxt,
        lints: &Vec<Lint>,
        abi: &SpecAbi,
        kind: &ForeignItemKind,
    ) -> (r: Result<(), CheckError>)
        requires
            old(self).wf(),
            foreign_item_type(*kind) matches Some(item_type) ==> old(self).has_room_under(
                item_type,
                *abi,
                max_errors(*kind),
            ),
        ensures
            final(self).wf(),
            match foreign_item_outcome(old(self)@, *tcx, lints@, *abi, *kind) {
                Ok(store) => r is Ok && final(self)@ == store,
                Err(e) => r == Err::<(), CheckError>(e) && *final(self) == *old(self),
            },
    {
        let item_type = match kind {
            ForeignItemKind::Fn(_, _) => ForeignItemType::ForeignFn,
            ForeignItemKind::Static(_, _) => ForeignItemType::StaticItem,
            ForeignItemKind::Type => return Ok(()),
        };
        let mut vis = ImproperCTypesVisitor {
            cx: tcx,
            mode: CItemKind::Declaration,
            errors: Vec::new(),
        };
        if vis.is_internal_abi(abi.kind) {
            self.record_abi(abi.name.as_str(), item_type);
            return Ok(());
        }
        assert(observations(vis.errors@) =~= Seq::empty());
        let checked = match kind {
            ForeignItemKind::Fn(sig, decl) => vis.check_foreign_fn(sig, decl),
            ForeignItemKind::Static(ty, span) => vis.check_foreign_static(*ty, span.as_str()),
            ForeignItemKind::Type => Ok(()),
        };
        match checked {
            Ok(()) => {},
            Err(e) => return Err(e),
        }
        let ghost observed = foreign_item_report(*tcx, *kind)->Ok_0;
        proof {
            assert(Seq::empty() + observed =~= observed);
            lemma_foreign_item_report_len(*tcx, *kind);
        }
        let errors = vis.errors;
        assert(observations(errors@).len() == errors@.len());
        proof {
            lemma_lint_registered(lints@, "IMPROPER_CTYPES"@);
        }
        if !lint_registered(lints, "IMPROPER_CTYPES") {
            return Err(CheckError::UnknownLint);
        }
        let were_ignored = lint_disabled(lints, "IMPROPER_CTYPES");
        self.record_abi(abi.name.as_str(), item_type);
        self.record_errors(errors, abi.display.as_str(), item_type, were_ignored);
        Ok(())
    }
}

/// Of a function that no foreign code can call, and of one in which nothing is
/// improper, only the calling convention is counted.
pub proof fn lemma_clean_fn_only_counted(
    store: Store,
    tcx: TyCtxt,
    lints: Seq<Lint>,
    kind: FnKind,
    sig: FnSig,
    decl: FnDecl,
    abi: SpecAbi,
)
    requires
        fn_abi(kind) == Some(abi),
        abi.kind.spec_is_internal() || (fn_report(
            tcx,
            CItemKind::Definition,
            sig,
            decl,
        ) matches Ok(observed) && observed.len() == 0),
    ensures
        fn_outcome(store, tcx, lints, kind, sig, decl) == Ok::<Store, CheckError>(
            count_abi(store, abi.name@, ForeignItemType::RustFn),
        ),
{
}

/// A function in which something is improper is recorded once, with what was
/// found in it and with whether the lint is allowed for it.
pub proof fn lemma_improper_fn_recorded(
    store: Store,
    tcx: TyCtxt,
    lints: Seq<Lint>,
    kind: FnKind,
    sig: FnSig,
    decl: FnDecl,
    abi: SpecAbi,
    observed: Seq<Observation>,
    ignored: bool,
)
    requires
        fn_abi(kind) == Some(abi),
        !abi.kind.spec_is_internal(),
        fn_report(tcx, CItemKind::Definition, sig, decl) == Ok::<Seq<Observation>, CheckError>(
            observed,
        ),
        observed.len() > 0,
        spec_lint_disabled(lints, "IMPROPER_CTYPES_DEFINITIONS"@) == Some(ignored),
    ensures
        fn_outcome(store, tcx, lints, kind, sig, decl) matches Ok(after) && {
            let before = store.rust_functions;
            &&& after.rust_functions.total_items == before.total_items + 1
            &&& after.rust_functions.item_error_counts.len() == before.item_error_counts.len() + 1
            &&& after.rust_functions.item_error_counts.last().index == before.total_items
            &&& after.rust_functions.item_error_counts.last().ignored == ignored
            &&& abi_count(after.rust_functions, abi.name@) == abi_count(before, abi.name@) + 1
            &&& after.foreign_functions == store.foreign_functions
            &&& after.static_items == store.static_items
        },
{
}

/// Whether a function has a calling convention of its own that foreign code can
/// use, and something is improper in it.
pub open spec fn fn_is_listed(tcx: TyCtxt, kind: FnKind, sig: FnSig, decl: FnDecl) -> bool {
    &&& fn_abi(kind) matches Some(abi) && !abi.kind.spec_is_internal()
    &&& fn_report(tcx, CItemKind::Definition, sig, decl) matches Ok(observed) && observed.len() > 0
}

/// A function is counted as an item, and listed, exactly if it has a calling
/// convention of its own that foreign code can use and something is improper in
/// it.
pub proof fn lemma_fn_listed(
    store: Store,
    tcx: TyCtxt,
    lints: Seq<Lint>,
    kind: FnKind,
    sig: FnSig,
    decl: FnDecl,
)
    requires
        fn_outcome(store, tcx, lints, kind, sig, decl) is Ok,
    ensures
        fn_outcome(store, tcx, lints, kind, sig, decl) matches Ok(after) && {
            let before = store.rust_functions;
            let listed = fn_is_listed(tcx, kind, sig, decl);
            let more: nat = if listed {
                1
            } else {
                0
            };
            &&& after.rust_functions.total_items == before.total_items + more
            &&& after.rust_functions.item_error_counts.len() == before.item_error_counts.len()
                + more
            &&& listed ==> Some(after.rust_functions.item_error_counts.last().ignored)
                == spec_lint_disabled(lints, "IMPROPER_CTYPES_DEFINITIONS"@)
            &&& !listed ==> after.errors == store.errors
            &&& after.foreign_functions == store.foreign_functions
            &&& after.static_items == store.static_items
        },
{
}

/// Every foreign function and static item is counted under its calling
/// convention, and if that is not one of Rust's own, as an item, whether or not
/// anything is improper in it. Under a calling convention of Rust's own nothing
/// else changes. Functions of the crate are left alone.
pub proof fn lemma_foreign_item_counted(
    store: Store,
    tcx: TyCtxt,
    lints: Seq<Lint>,
    abi: SpecAbi,
    kind: ForeignItemKind,
    item_type: ForeignItemType,
)
    requires
        foreign_item_type(kind) == Some(item_type),
        foreign_item_outcome(store, tcx, lints, abi, kind) is Ok,
    ensures
        foreign_item_outcome(store, tcx, lints, abi, kind) matches Ok(after) && {
            &&& abi_count(after.tally(item_type), abi.name@) == abi_count(
                store.tally(item_type),
                abi.name@,
            ) + 1
            &&& after.tally(item_type).total_items == store.tally(item_type).total_items
                + if abi.kind.spec_is_internal() {
                0nat
            } else {
                1nat
            }
            &&& abi.kind.spec_is_internal() ==> {
                &&& after.tally(item_type).item_error_counts == store.tally(
                    item_type,
                ).item_error_counts
                &&& after.errors == store.errors
            }
            &&& after.rust_functions == store.rust_functions
        },
{
}

/// Foreign types are not recorded.
pub proof fn lemma_foreign_type_not_recorded(
    store: Store,
    tcx: TyCtxt,
    lints: Seq<Lint>,
    abi: SpecAbi,
)
    ensures
        foreign_item_outcome(store, tcx, lints, abi, ForeignItemKind::Type) == Ok::<
            Store,
            CheckError,
        >(store),
{
}

} // verus!
