//! What is reported of a type and of a function, in terms of how the types are
//! described and of the verdicts on them.

use vstd::prelude::*;

use crate::check::{check_type, FfiResult};
use crate::error::{CheckError, Reason};
use crate::nullable::CItemKind;
use crate::opaque::{opaque_among, opaque_below, opaque_in};
use crate::pending::{lemma_pending_insert, pending};
use crate::report::{
    fn_report, input_count, inputs_report, lemma_inputs_report_fails, report, FnDecl, Observation,
};
use crate::ty::{spec_tykind_discriminant, AbiKind, AliasKind, FnSig, Ty, TyCtxt, TyKind};
use crate::verdict_laws::is_unit_kind;

verus! {

/// The calling conventions that no foreign code can use are those that are Rust's
/// own.
pub proof fn lemma_internal_abis(abi: AbiKind)
    ensures
        abi.spec_is_internal() <==> abi != AbiKind::Foreign,
{
}

/// The reasons are numbered from zero in the order in which they are declared.
pub proof fn lemma_reason_codes()
    ensures
        Reason::Opaque.spec_code() == 0,
        Reason::FnPtr.spec_code() == Reason::Opaque.spec_code() + 1,
        Reason::Tuple.spec_code() == Reason::FnPtr.spec_code() + 1,
        Reason::Str.spec_code() == Reason::Tuple.spec_code() + 1,
        Reason::Dyn.spec_code() == Reason::Str.spec_code() + 1,
        Reason::Slice.spec_code() == Reason::Dyn.spec_code() + 1,
        Reason::Bit128.spec_code() == Reason::Slice.spec_code() + 1,
        Reason::Char.spec_code() == Reason::Bit128.spec_code() + 1,
        Reason::EnumNonExhaustive.spec_code() == Reason::Char.spec_code() + 1,
        Reason::EnumNonExhaustiveVariant.spec_code() == Reason::EnumNonExhaustive.spec_code() + 1,
        Reason::EnumNoRepresentation.spec_code() == Reason::EnumNonExhaustiveVariant.spec_code()
            + 1,
        Reason::StructFieldless.spec_code() == Reason::EnumNoRepresentation.spec_code() + 1,
        Reason::UnionFieldless.spec_code() == Reason::StructFieldless.spec_code() + 1,
        Reason::StructNonExhaustive.spec_code() == Reason::UnionFieldless.spec_code() + 1,
        Reason::UnionNonExhaustive.spec_code() == Reason::StructNonExhaustive.spec_code() + 1,
        Reason::UnionLayout.spec_code() == Reason::UnionNonExhaustive.spec_code() + 1,
        Reason::StructLayout.spec_code() == Reason::UnionLayout.spec_code() + 1,
        Reason::Box.spec_code() == Reason::StructLayout.spec_code() + 1,
        Reason::EnumPhantomData.spec_code() == Reason::Box.spec_code() + 1,
        Reason::StructZeroSized.spec_code() == Reason::EnumPhantomData.spec_code() + 1,
        Reason::Array.spec_code() == Reason::StructZeroSized.spec_code() + 1,
        Reason::OnlyPhantomData.spec_code() == Reason::Array.spec_code() + 1,
{
}

/// The number under which each kind of type is reported.
pub proof fn lemma_discriminants(kind: TyKind)
    ensures
        ({
            let n = spec_tykind_discriminant(kind);
            &&& n == 0 <==> kind is Bool
            &&& n == 1 <==> kind is Char
            &&& n == 2 <==> kind is Int
            &&& n == 3 <==> kind is Uint
            &&& n == 4 <==> kind is Float
            &&& n == 5 <==> kind is Adt
            &&& n == 6 <==> kind is Foreign
            &&& n == 7 <==> kind is Str
            &&& n == 8 <==> kind is Array
            &&& n == 9 <==> kind is Slice
            &&& n == 10 <==> kind is RawPtr
            &&& n == 11 <==> kind is Ref
            &&& n == 12 <==> kind is FnDef
            &&& n == 13 <==> kind is FnPtr
            &&& n == 14 <==> kind is Dynamic
            &&& n == 15 <==> kind is Closure
            &&& n == 16 <==> kind is Generator
            &&& n == 17 <==> kind is GeneratorWitness
            &&& n == 18 <==> kind is Never
            &&& n == 19 <==> kind is Tuple
            &&& n == 20 <==> kind is Param
            &&& n == 21 <==> kind is Bound
            &&& n == 22 <==> kind is Placeholder
            &&& n == 23 <==> kind is Infer
            &&& n == 24 <==> kind is Error
            &&& n == 25 <==> kind is Alias
        }),
{
}

/// Whether a type is opaque and marked as such.
pub open spec fn is_marked_opaque(tcx: TyCtxt, ty: Ty) -> bool {
    &&& tcx.described(ty)
    &&& tcx.data_of(ty).has_opaque_types
    &&& tcx.kind_of(ty) == TyKind::Alias(AliasKind::Opaque)
}

/// Whether a search for opaque types goes on from a type to its components: the
/// type is marked and not itself opaque.
pub open spec fn is_searched(tcx: TyCtxt, ty: Ty) -> bool {
    &&& tcx.described(ty)
    &&& tcx.data_of(ty).has_opaque_types
    &&& tcx.kind_of(ty) != TyKind::Alias(AliasKind::Opaque)
}

/// What the search for an opaque type says of a type by itself: it begins with
/// what the type normalizes to; it finds nothing in a type that is not marked, and
/// an opaque type in itself.
pub proof fn lemma_opaque_search(tcx: TyCtxt, ty: Ty)
    ensures
        ({
            let r = opaque_in(tcx, ty);
            &&& !tcx.described(ty) ==> r == Err::<Option<Ty>, CheckError>(
                CheckError::Undescribed(ty),
            )
            &&& tcx.described(ty) && tcx.data_of(ty).normalized is None ==> r == Err::<
                Option<Ty>,
                CheckError,
            >(CheckError::CannotNormalize(ty))
            &&& tcx.described(ty) ==> (tcx.data_of(ty).normalized matches Some(n) ==> {
                &&& !tcx.described(n) ==> r == Err::<Option<Ty>, CheckError>(
                    CheckError::Undescribed(n),
                )
                &&& tcx.described(n) && !tcx.data_of(n).has_opaque_types ==> r == Ok::<
                    Option<Ty>,
                    CheckError,
                >(None)
                &&& is_marked_opaque(tcx, n) ==> r == Ok::<Option<Ty>, CheckError>(Some(n))
            })
        }),
{
}

/// The search in a type is the search in what the type normalizes to.
pub proof fn lemma_opaque_search_normalized(tcx: TyCtxt, ty: Ty, n: Ty)
    requires
        tcx.described(ty),
        tcx.data_of(ty).normalized == Some(n),
    ensures
        opaque_in(tcx, ty) == opaque_below(tcx, n, Set::empty()),
{
}

/// What a type that is searched holds is what the first of its components holds
/// in which anything is found. Where the search has an answer, it is this one.
pub proof fn lemma_opaque_search_goes_on(tcx: TyCtxt, n: Ty)
    requires
        is_searched(tcx, n),
        opaque_below(tcx, n, Set::empty()) is Ok,
    ensures
        ({
            let parts = tcx.data_of(n).components@;
            match opaque_below(tcx, n, Set::empty())->Ok_0 {
                None => forall|i: int|
                    0 <= i < parts.len() ==> opaque_below(tcx, #[trigger] parts[i], Set::empty())
                        == Ok::<Option<Ty>, CheckError>(None),
                Some(found) => exists|k: int|
                    {
                        &&& 0 <= k < parts.len()
                        &&& opaque_below(tcx, #[trigger] parts[k], Set::empty()) == Ok::<
                            Option<Ty>,
                            CheckError,
                        >(Some(found))
                        &&& forall|i: int|
                            0 <= i < k ==> opaque_below(tcx, #[trigger] parts[i], Set::empty())
                                == Ok::<Option<Ty>, CheckError>(None)
                    },
            }
        }),
{
    let parts = tcx.data_of(n).components@;
    let path = Set::<Ty>::empty().insert(n);
    lemma_pending_insert(tcx.len(), Set::<Ty>::empty(), n);
    assert(opaque_below(tcx, n, Set::empty()) == opaque_among(tcx, parts, 0, path));
    lemma_opaque_among_says(tcx, parts, 0, path);
    match opaque_below(tcx, n, Set::empty())->Ok_0 {
        None => {
            assert forall|i: int| 0 <= i < parts.len() implies opaque_below(
                tcx,
                #[trigger] parts[i],
                Set::empty(),
            ) == Ok::<Option<Ty>, CheckError>(None) by {
                lemma_opaque_below_apart(tcx, parts[i], path, Set::empty());
            }
        },
        Some(found) => {
            let k = choose|k: int|
                {
                    &&& 0 <= k < parts.len()
                    &&& opaque_below(tcx, #[trigger] parts[k], path) == Ok::<
                        Option<Ty>,
                        CheckError,
                    >(Some(found))
                    &&& forall|i: int|
                        0 <= i < k ==> opaque_below(tcx, #[trigger] parts[i], path) == Ok::<
                            Option<Ty>,
                            CheckError,
                        >(None)
                };
            lemma_opaque_below_apart(tcx, parts[k], path, Set::empty());
            assert forall|i: int| 0 <= i < k implies opaque_below(
                tcx,
                #[trigger] parts[i],
                Set::empty(),
            ) == Ok::<Option<Ty>, CheckError>(None) by {
                lemma_opaque_below_apart(tcx, parts[i], path, Set::empty());
            }
        },
    }
}

proof fn lemma_opaque_among_says(tcx: TyCtxt, tys: Seq<Ty>, i: int, path: Set<Ty>)
    requires
        0 <= i,
        opaque_among(tcx, tys, i, path) is Ok,
    ensures
        match opaque_among(tcx, tys, i, path)->Ok_0 {
            None => forall|m: int|
                i <= m < tys.len() ==> opaque_below(tcx, #[trigger] tys[m], path) == Ok::<
                    Option<Ty>,
                    CheckError,
                >(None),
            Some(found) => exists|k: int|
                {
                    &&& i <= k < tys.len()
                    &&& opaque_below(tcx, #[trigger] tys[k], path) == Ok::<
                        Option<Ty>,
                        CheckError,
                    >(Some(found))
                    &&& forall|m: int|
                        i <= m < k ==> opaque_below(tcx, #[trigger] tys[m], path) == Ok::<
                            Option<Ty>,
                            CheckError,
                        >(None)
                },
        },
    decreases tys.len() - i,
{
    if i < tys.len() {
        if opaque_below(tcx, tys[i], path) == Ok::<Option<Ty>, CheckError>(None) {
            lemma_opaque_among_says(tcx, tys, i + 1, path);
            if let Some(found) = opaque_among(tcx, tys, i, path)->Ok_0 {
                let k = choose|k: int|
                    {
                        &&& i + 1 <= k < tys.len()
                        &&& opaque_below(tcx, #[trigger] tys[k], path) == Ok::<
                            Option<Ty>,
                            CheckError,
                        >(Some(found))
                        &&& forall|m: int|
                            i + 1 <= m < k ==> opaque_below(tcx, #[trigger] tys[m], path) == Ok::<
                                Option<Ty>,
                                CheckError,
                            >(None)
                    };
                assert(opaque_below(tcx, tys[k], path) == Ok::<Option<Ty>, CheckError>(
                    Some(found),
                ));
            }
        } else {
            assert(opaque_below(tcx, tys[i], path) == opaque_among(tcx, tys, i, path));
        }
    }
}

/// What is found in a type does not depend on the types it is a component of.
pub proof fn lemma_opaque_below_apart(tcx: TyCtxt, ty: Ty, path: Set<Ty>, shorter: Set<Ty>)
    requires
        shorter.subset_of(path),
        opaque_below(tcx, ty, path) is Ok,
    ensures
        opaque_below(tcx, ty, shorter) == opaque_below(tcx, ty, path),
    decreases pending(tcx.len(), path), 0nat, 0nat,
{
    if is_searched(tcx, ty) {
        lemma_pending_insert(tcx.len(), path, ty);
        lemma_opaque_among_apart(
            tcx,
            tcx.data_of(ty).components@,
            0,
            path.insert(ty),
            shorter.insert(ty),
        );
    }
}

proof fn lemma_opaque_among_apart(
    tcx: TyCtxt,
    tys: Seq<Ty>,
    i: int,
    path: Set<Ty>,
    shorter: Set<Ty>,
)
    requires
        shorter.subset_of(path),
        opaque_among(tcx, tys, i, path) is Ok,
    ensures
        opaque_among(tcx, tys, i, shorter) == opaque_among(tcx, tys, i, path),
    decreases pending(tcx.len(), path), 1nat, tys.len() - i,
{
    if 0 <= i < tys.len() {
        lemma_opaque_below_apart(tcx, tys[i], path, shorter);
        if opaque_below(tcx, tys[i], path) == Ok::<Option<Ty>, CheckError>(None) {
            lemma_opaque_among_apart(tcx, tys, i + 1, path, shorter);
        }
    }
}

/// What the search says of a component by itself.
pub proof fn lemma_opaque_component(tcx: TyCtxt, part: Ty)
    ensures
        ({
            let r = opaque_below(tcx, part, Set::empty());
            &&& !tcx.described(part) ==> r == Err::<Option<Ty>, CheckError>(
                CheckError::Undescribed(part),
            )
            &&& tcx.described(part) && !tcx.data_of(part).has_opaque_types ==> r == Ok::<
                Option<Ty>,
                CheckError,
            >(None)
            &&& is_marked_opaque(tcx, part) ==> r == Ok::<Option<Ty>, CheckError>(Some(part))
        }),
{
}

/// Whether the components that are searched are described, and `rank` falls from a
/// type to them: then no type is among its own components, however deep.
pub open spec fn search_ends(tcx: TyCtxt, rank: spec_fn(Ty) -> nat) -> bool {
    forall|ty: Ty, i: int|
        is_searched(tcx, ty) && 0 <= i < tcx.data_of(ty).components@.len() ==> tcx.described(
            #[trigger] tcx.data_of(ty).components@[i],
        ) && rank(tcx.data_of(ty).components@[i]) < rank(ty)
}

/// Where no type is among its own components, the search has an answer.
pub proof fn lemma_opaque_search_answered(tcx: TyCtxt, ty: Ty, n: Ty, rank: spec_fn(Ty) -> nat)
    requires
        tcx.described(ty),
        tcx.data_of(ty).normalized == Some(n),
        tcx.described(n),
        search_ends(tcx, rank),
    ensures
        opaque_in(tcx, ty) is Ok,
{
    lemma_opaque_below_answered(tcx, n, Set::empty(), rank);
}

proof fn lemma_opaque_below_answered(
    tcx: TyCtxt,
    ty: Ty,
    path: Set<Ty>,
    rank: spec_fn(Ty) -> nat,
)
    requires
        tcx.described(ty),
        search_ends(tcx, rank),
        forall|above: Ty| #[trigger] path.contains(above) ==> rank(ty) < rank(above),
    ensures
        opaque_below(tcx, ty, path) is Ok,
    decreases rank(ty), 1nat, 0nat,
{
    if is_searched(tcx, ty) {
        lemma_pending_insert(tcx.len(), path, ty);
        lemma_opaque_among_answered(tcx, ty, 0, path.insert(ty), rank);
    }
}

proof fn lemma_opaque_among_answered(
    tcx: TyCtxt,
    ty: Ty,
    i: int,
    path: Set<Ty>,
    rank: spec_fn(Ty) -> nat,
)
    requires
        is_searched(tcx, ty),
        0 <= i <= tcx.data_of(ty).components@.len(),
        search_ends(tcx, rank),
        forall|above: Ty| #[trigger] path.contains(above) ==> rank(ty) <= rank(above),
    ensures
        opaque_among(tcx, tcx.data_of(ty).components@, i, path) is Ok,
    decreases rank(ty), 0nat, tcx.data_of(ty).components@.len() - i,
{
    let parts = tcx.data_of(ty).components@;
    if i < parts.len() {
        assert(tcx.described(parts[i]));
        lemma_opaque_below_answered(tcx, parts[i], path, rank);
        lemma_opaque_among_answered(tcx, ty, i + 1, path, rank);
    }
}

/// Whether an observation says that the type `ty`, written at `sp`, is improper for
/// the given reason.
pub open spec fn says(
    tcx: TyCtxt,
    observed: Observation,
    ty: Ty,
    sp: Seq<char>,
    reason: Reason,
) -> bool {
    &&& observed.discriminant == spec_tykind_discriminant(tcx.kind_of(ty))
    &&& observed.str_rep == tcx.data_of(ty).str_rep@
    &&& observed.location == sp
    &&& observed.reason == reason.spec_code()
}

/// Whether exactly this is reported: the type `ty`, written at `sp`, is improper
/// for the given reason.
pub open spec fn reports_one(
    tcx: TyCtxt,
    r: Result<Seq<Observation>, CheckError>,
    ty: Ty,
    sp: Seq<char>,
    reason: Reason,
) -> bool {
    r matches Ok(all) && all.len() == 1 && says(tcx, all[0], ty, sp, reason)
}

/// Whether nothing is reported.
pub open spec fn reports_nothing(r: Result<Seq<Observation>, CheckError>) -> bool {
    r matches Ok(all) && all.len() == 0
}

/// What is reported of a type, in either mode and wherever it is written. An opaque
/// type in it comes first. What the type normalizes to is judged otherwise: unless
/// it is static, an array is improper; `()` may be returned; and else the verdict
/// on it is reported, with phantom data as improper, but for the verdict on `()` in
/// what is returned.
pub proof fn lemma_report(
    tcx: TyCtxt,
    mode: CItemKind,
    sp: Seq<char>,
    ty: Ty,
    is_static: bool,
    is_return_type: bool,
)
    ensures
        ({
            let r = report(tcx, mode, sp, ty, is_static, is_return_type);
            let fails = |e: CheckError| Err::<Seq<Observation>, CheckError>(e);
            match opaque_in(tcx, ty) {
                Err(e) => r == fails(e),
                Ok(Some(opaque)) => reports_one(tcx, r, opaque, sp, Reason::Opaque),
                Ok(None) => {
                    let n = tcx.data_of(ty).normalized->0;
                    let by_value = !is_static && tcx.kind_of(n) is Array;
                    let returned_unit = is_return_type && is_unit_kind(tcx.kind_of(n));
                    &&& by_value ==> reports_one(tcx, r, n, sp, Reason::Array)
                    &&& !by_value && returned_unit ==> reports_nothing(r)
                    &&& !by_value && !returned_unit ==> match check_type(
                        tcx,
                        mode,
                        n,
                        Set::empty(),
                    ).result {
                        Err(e) => r == fails(e),
                        Ok(FfiResult::FfiSafe) => reports_nothing(r),
                        Ok(FfiResult::FfiPhantom(phantom)) => reports_one(
                            tcx,
                            r,
                            phantom,
                            sp,
                            Reason::OnlyPhantomData,
                        ),
                        Ok(FfiResult::FfiUnsafe { ty: culprit, reason }) => if is_return_type
                            && is_unit_kind(tcx.kind_of(culprit)) {
                            reports_nothing(r)
                        } else {
                            reports_one(tcx, r, culprit, sp, reason)
                        },
                    }
                },
            }
        }),
{
    if opaque_in(tcx, ty) == Ok::<Option<Ty>, CheckError>(None) {
        let n = tcx.data_of(ty).normalized->0;
        crate::check_laws::lemma_verdict_justified(tcx, mode, n, Set::empty());
    }
}

/// Whether the parts are what is reported of the inputs of a function, one by one.
pub open spec fn are_input_reports(
    tcx: TyCtxt,
    mode: CItemKind,
    sig: FnSig,
    decl: FnDecl,
    parts: Seq<Seq<Observation>>,
) -> bool {
    forall|i: int|
        0 <= i < parts.len() ==> report(
            tcx,
            mode,
            decl.inputs@[i]@,
            sig.inputs@[i],
            false,
            false,
        ) == Ok::<Seq<Observation>, CheckError>(#[trigger] parts[i])
}

/// Whether as many inputs are counted as have both a type and a place.
pub open spec fn is_input_count(sig: FnSig, decl: FnDecl, n: nat) -> bool {
    &&& n <= sig.inputs@.len()
    &&& n <= decl.inputs@.len()
    &&& n == sig.inputs@.len() || n == decl.inputs@.len()
}

/// The number of inputs is that of those with a type and a place.
pub proof fn lemma_input_count(sig: FnSig, decl: FnDecl)
    ensures
        is_input_count(sig, decl, input_count(sig, decl)),
{
}

/// What is reported of a function, in either mode: what is reported of its inputs,
/// in order, and then what is reported of its output as a returned type, if the
/// output is written. The first of these that fails makes the report fail.
pub proof fn lemma_fn_report(
    tcx: TyCtxt,
    mode: CItemKind,
    sig: FnSig,
    decl: FnDecl,
    parts: Seq<Seq<Observation>>,
)
    requires
        is_input_count(sig, decl, parts.len()),
        are_input_reports(tcx, mode, sig, decl, parts),
    ensures
        match decl.output {
            None => fn_report(tcx, mode, sig, decl) == Ok::<Seq<Observation>, CheckError>(
                parts.flatten(),
            ),
            Some(place) => match report(tcx, mode, place@, sig.output, false, true) {
                Ok(last) => fn_report(tcx, mode, sig, decl) == Ok::<Seq<Observation>, CheckError>(
                    parts.flatten() + last,
                ),
                Err(e) => fn_report(tcx, mode, sig, decl) == Err::<Seq<Observation>, CheckError>(
                    e,
                ),
            },
        },
{
    lemma_input_count(sig, decl);
    lemma_inputs_report_flattened(tcx, mode, sig, decl, parts);
}

proof fn lemma_inputs_report_flattened(
    tcx: TyCtxt,
    mode: CItemKind,
    sig: FnSig,
    decl: FnDecl,
    parts: Seq<Seq<Observation>>,
)
    requires
        are_input_reports(tcx, mode, sig, decl, parts),
    ensures
        inputs_report(tcx, mode, sig, decl, parts.len()) == Ok::<Seq<Observation>, CheckError>(
            parts.flatten(),
        ),
    decreases parts.len(),
{
    if parts.len() == 0 {
        assert(parts.flatten() =~= Seq::empty());
    } else {
        let fewer = parts.drop_last();
        assert forall|i: int| 0 <= i < fewer.len() implies report(
            tcx,
            mode,
            decl.inputs@[i]@,
            sig.inputs@[i],
            false,
            false,
        ) == Ok::<Seq<Observation>, CheckError>(#[trigger] fewer[i]) by {
            assert(fewer[i] == parts[i]);
        }
        lemma_inputs_report_flattened(tcx, mode, sig, decl, fewer);
        let i = parts.len() - 1;
        assert(report(tcx, mode, decl.inputs@[i]@, sig.inputs@[i], false, false) == Ok::<
            Seq<Observation>,
            CheckError,
        >(parts[i]));
        parts.lemma_flatten_and_flatten_alt_are_equivalent();
        fewer.lemma_flatten_and_flatten_alt_are_equivalent();
        assert(parts.flatten() =~= fewer.flatten() + parts[i]);
    }
}

/// The first input that cannot be checked decides how the report of a function
/// fails.
pub proof fn lemma_fn_report_fails(
    tcx: TyCtxt,
    mode: CItemKind,
    sig: FnSig,
    decl: FnDecl,
    parts: Seq<Seq<Observation>>,
    e: CheckError,
)
    requires
        are_input_reports(tcx, mode, sig, decl, parts),
        parts.len() < sig.inputs@.len(),
        parts.len() < decl.inputs@.len(),
        report(
            tcx,
            mode,
            decl.inputs@[parts.len() as int]@,
            sig.inputs@[parts.len() as int],
            false,
            false,
        ) == Err::<Seq<Observation>, CheckError>(e),
    ensures
        fn_report(tcx, mode, sig, decl) == Err::<Seq<Observation>, CheckError>(e),
{
    lemma_inputs_report_flattened(tcx, mode, sig, decl, parts);
    lemma_inputs_report_fails(
        tcx,
        mode,
        sig,
        decl,
        (parts.len() + 1) as nat,
        input_count(sig, decl),
    );
}

} // verus!
