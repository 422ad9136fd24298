//! What is reported of the types of a foreign item.

use vstd::prelude::*;

use crate::check::{check_type, FfiResult};
use crate::check_laws::{improper_because, lemma_verdict_justified, phantom_because, reaches};
use crate::error::{CheckError, Reason};
use crate::nullable::CItemKind;
use crate::opaque::{is_opaque, lemma_opaque_below_finds, opaque_in};
use crate::ty::{spec_tykind_discriminant, FnSig, Ty, TyCtxt, TyKind};

verus! {

/// A type that is improper in a foreign item, as it was found.
#[derive(Debug)]
pub struct ObservedImproperType {
    pub discriminant: usize,
    pub str_rep: String,
    pub location: String,
    pub reason: i32,
}

/// What an [`ObservedImproperType`] says.
pub struct Observation {
    pub discriminant: usize,
    pub str_rep: Seq<char>,
    pub location: Seq<char>,
    pub reason: i32,
}

impl View for ObservedImproperType {
    type V = Observation;

    open spec fn view(&self) -> Observation {
        Observation {
            discriminant: self.discriminant,
            str_rep: self.str_rep@,
            location: self.location@,
            reason: self.reason,
        }
    }
}

/// What a list of observed types says.
pub open spec fn observations(errors: Seq<ObservedImproperType>) -> Seq<Observation> {
    errors.map_values(|error: ObservedImproperType| error@)
}

/// Where the parts of a function declaration are written: its inputs in order,
/// and its output where it is written at all.
#[derive(Debug)]
pub struct FnDecl {
    pub inputs: Vec<String>,
    pub output: Option<String>,
}

/// The observation that the described type `ty`, written at `sp`, is improper.
pub open spec fn observation(tcx: TyCtxt, ty: Ty, sp: Seq<char>, reason: Reason) -> Observation {
    Observation {
        discriminant: spec_tykind_discriminant(tcx.kind_of(ty)),
        str_rep: tcx.data_of(ty).str_rep@,
        location: sp,
        reason: reason.spec_code(),
    }
}

/// Whether the verdict that `ty` is improper is passed over: a wrapper around
/// `()` may be returned as `()` itself may.
pub open spec fn unsafe_finding(tcx: TyCtxt, ty: Ty, reason: Reason, is_return_type: bool) -> Result<
    Option<(Ty, Reason)>,
    CheckError,
> {
    if is_return_type {
        match tcx.spec_is_unit(ty) {
            Err(e) => Err(e),
            Ok(true) => Ok(None),
            Ok(false) => Ok(Some((ty, reason))),
        }
    } else {
        Ok(Some((ty, reason)))
    }
}

/// Which type, if any, is found improper in the type `ty`, which is already
/// normalized and free of opaque types.
pub open spec fn normalized_finding(
    tcx: TyCtxt,
    mode: CItemKind,
    ty: Ty,
    is_static: bool,
    is_return_type: bool,
) -> Result<Option<(Ty, Reason)>, CheckError> {
    match tcx.lookup(ty) {
        Err(e) => Err(e),
        Ok(data) => if !is_static && data.kind is Array {
            // C passes no array by value.
            Ok(Some((ty, Reason::Array)))
        } else if is_return_type && data.kind.spec_is_unit() {
            Ok(None)
        } else {
            match check_type(tcx, mode, ty, Set::empty()).result {
                Err(e) => Err(e),
                Ok(FfiResult::FfiSafe) => Ok(None),
                Ok(FfiResult::FfiPhantom(phantom)) => Ok(Some((phantom, Reason::OnlyPhantomData))),
                Ok(FfiResult::FfiUnsafe { ty: culprit, reason }) => unsafe_finding(
                    tcx,
                    culprit,
                    reason,
                    is_return_type,
                ),
            }
        },
    }
}

/// Which type, if any, is found improper in the type `ty`, and why.
pub open spec fn finding(
    tcx: TyCtxt,
    mode: CItemKind,
    ty: Ty,
    is_static: bool,
    is_return_type: bool,
) -> Result<Option<(Ty, Reason)>, CheckError> {
    match opaque_in(tcx, ty) {
        Err(e) => Err(e),
        Ok(Some(opaque)) => Ok(Some((opaque, Reason::Opaque))),
        Ok(None) => match tcx.spec_normalize(ty) {
            Err(e) => Err(e),
            Ok(normalized) => normalized_finding(
                tcx,
                mode,
                normalized,
                is_static,
                is_return_type,
            ),
        },
    }
}

/// What is reported of the type `ty`, which is written at `sp`.
pub open spec fn report(
    tcx: TyCtxt,
    mode: CItemKind,
    sp: Seq<char>,
    ty: Ty,
    is_static: bool,
    is_return_type: bool,
) -> Result<Seq<Observation>, CheckError> {
    match finding(tcx, mode, ty, is_static, is_return_type) {
        Err(e) => Err(e),
        Ok(None) => Ok(Seq::empty()),
        Ok(Some((culprit, reason))) => Ok(seq![observation(tcx, culprit, sp, reason)]),
    }
}

/// The number of inputs that have both a type and a place.
pub open spec fn input_count(sig: FnSig, decl: FnDecl) -> nat {
    if sig.inputs@.len() < decl.inputs@.len() {
        sig.inputs@.len()
    } else {
        decl.inputs@.len()
    }
}

/// What is reported of the first `n` inputs of a function, in order.
pub open spec fn inputs_report(
    tcx: TyCtxt,
    mode: CItemKind,
    sig: FnSig,
    decl: FnDecl,
    n: nat,
) -> Result<Seq<Observation>, CheckError>
    decreases n,
{
    if n == 0 {
        Ok(Seq::empty())
    } else {
        let i = n - 1;
        match inputs_report(tcx, mode, sig, decl, (n - 1) as nat) {
            Err(e) => Err(e),
            Ok(before) => match report(
                tcx,
                mode,
                decl.inputs@[i]@,
                sig.inputs@[i],
                false,
                false,
            ) {
                Err(e) => Err(e),
                Ok(more) => Ok(before + more),
            },
        }
    }
}

/// What is reported of a function: of its inputs, and of its output where that
/// is written.
pub open spec fn fn_report(tcx: TyCtxt, mode: CItemKind, sig: FnSig, decl: FnDecl) -> Result<
    Seq<Observation>,
    CheckError,
> {
    match inputs_report(tcx, mode, sig, decl, input_count(sig, decl)) {
        Err(e) => Err(e),
        Ok(before) => match decl.output {
            None => Ok(before),
            Some(sp) => match report(tcx, mode, sp@, sig.output, false, true) {
                Err(e) => Err(e),
                Ok(more) => Ok(before + more),
            },
        },
    }
}

/// A report that fails on some of the inputs fails on more of them in the same
/// way.
pub proof fn lemma_inputs_report_fails(
    tcx: TyCtxt,
    mode: CItemKind,
    sig: FnSig,
    decl: FnDecl,
    m: nat,
    n: nat,
)
    requires
        m <= n,
        inputs_report(tcx, mode, sig, decl, m) is Err,
    ensures
        inputs_report(tcx, mode, sig, decl, n) == inputs_report(tcx, mode, sig, decl, m),
    decreases n,
{
    if m < n {
        lemma_inputs_report_fails(tcx, mode, sig, decl, m, (n - 1) as nat);
    }
}

/// Of a type at most one thing is reported.
pub proof fn lemma_report_len(
    tcx: TyCtxt,
    mode: CItemKind,
    sp: Seq<char>,
    ty: Ty,
    is_static: bool,
    is_return_type: bool,
)
    ensures
        report(tcx, mode, sp, ty, is_static, is_return_type) matches Ok(more) ==> more.len() <= 1,
{
}

/// Of a function at most one thing is reported for each input and for the
/// output.
pub proof fn lemma_fn_report_len(tcx: TyCtxt, mode: CItemKind, sig: FnSig, decl: FnDecl)
    ensures
        fn_report(tcx, mode, sig, decl) matches Ok(all) ==> all.len() <= input_count(sig, decl) + 1,
{
    lemma_inputs_report_len(tcx, mode, sig, decl, input_count(sig, decl));
}

proof fn lemma_inputs_report_len(
    tcx: TyCtxt,
    mode: CItemKind,
    sig: FnSig,
    decl: FnDecl,
    n: nat,
)
    ensures
        inputs_report(tcx, mode, sig, decl, n) matches Ok(all) ==> all.len() <= n,
    decreases n,
{
    if n > 0 {
        lemma_inputs_report_len(tcx, mode, sig, decl, (n - 1) as nat);
    }
}

/// A type that is found improper is found so rightly: it is an opaque type; or
/// an array that is passed by value; or it is among the types that the checked
/// one is made of, and is improper by itself or nothing but phantom data.
pub proof fn lemma_finding_justified(
    tcx: TyCtxt,
    mode: CItemKind,
    ty: Ty,
    is_static: bool,
    is_return_type: bool,
)
    ensures
        finding(tcx, mode, ty, is_static, is_return_type) matches Ok(Some((culprit, reason))) ==> {
            let normalized = tcx.spec_normalize(ty)->Ok_0;
            &&& tcx.described(culprit)
            &&& {
                ||| reason == Reason::Opaque && is_opaque(tcx, culprit)
                ||| reason == Reason::Array && culprit == normalized && tcx.kind_of(
                    culprit,
                ) is Array && !is_static
                ||| reaches(tcx, mode, normalized, culprit) && improper_because(
                    tcx,
                    mode,
                    culprit,
                    reason,
                )
                ||| reason == Reason::OnlyPhantomData && reaches(tcx, mode, normalized, culprit)
                    && phantom_because(tcx, mode, culprit)
            }
        },
{
    let normalized = tcx.spec_normalize(ty)->Ok_0;
    lemma_opaque_below_finds(tcx, normalized, Set::empty());
    lemma_verdict_justified(tcx, mode, normalized, Set::empty());
}

/// Of a function that returns `()` the output is never reported.
pub proof fn lemma_unit_return_not_reported(tcx: TyCtxt, mode: CItemKind, sp: Seq<char>, ty: Ty)
    requires
        opaque_in(tcx, ty) == Ok::<Option<Ty>, CheckError>(None),
        tcx.spec_normalize(ty) is Ok,
        tcx.described(tcx.spec_normalize(ty)->Ok_0),
        tcx.kind_of(tcx.spec_normalize(ty)->Ok_0).spec_is_unit(),
    ensures
        report(tcx, mode, sp, ty, false, true) == Ok::<Seq<Observation>, CheckError>(Seq::empty()),
{
}

/// An array is reported wherever it is passed by value, whatever its elements
/// are; a static array is judged by its elements.
pub proof fn lemma_array_reported(
    tcx: TyCtxt,
    mode: CItemKind,
    sp: Seq<char>,
    ty: Ty,
    inner_ty: Ty,
    is_return_type: bool,
)
    requires
        opaque_in(tcx, ty) == Ok::<Option<Ty>, CheckError>(None),
        tcx.spec_normalize(ty) is Ok,
        tcx.described(tcx.spec_normalize(ty)->Ok_0),
        tcx.kind_of(tcx.spec_normalize(ty)->Ok_0) == TyKind::Array(inner_ty),
    ensures
        report(tcx, mode, sp, ty, false, is_return_type) == Ok::<Seq<Observation>, CheckError>(
            seq![observation(tcx, tcx.spec_normalize(ty)->Ok_0, sp, Reason::Array)],
        ),
        check_type(tcx, mode, tcx.spec_normalize(ty)->Ok_0, Set::empty()) == check_type(
            tcx,
            mode,
            inner_ty,
            Set::empty().insert(tcx.spec_normalize(ty)->Ok_0),
        ),
{
}

} // verus!
