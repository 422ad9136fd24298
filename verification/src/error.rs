//! Why a type is improper in a foreign interface, and why a check can stop
//! without a verdict.

use vstd::prelude::*;

use crate::ty::Ty;

verus! {

/// Why a type has no dependable C representation.
#[derive(Clone, Copy, Debug, PartialEq, Eq, Structural)]
pub enum Reason {
    Opaque,
    FnPtr,
    Tuple,
    Str,
    Dyn,
    Slice,
    Bit128,
    Char,
    EnumNonExhaustive,
    EnumNonExhaustiveVariant,
    EnumNoRepresentation,
    StructFieldless,
    UnionFieldless,
    StructNonExhaustive,
    UnionNonExhaustive,
    UnionLayout,
    StructLayout,
    Box,
    EnumPhantomData,
    StructZeroSized,
    Array,
    OnlyPhantomData,
}

impl Reason {
    /// The number under which a reason is reported.
    pub open spec fn spec_code(self) -> i32 {
        match self {
            Reason::Opaque => 0,
            Reason::FnPtr => 1,
            Reason::Tuple => 2,
            Reason::Str => 3,
            Reason::Dyn => 4,
            Reason::Slice => 5,
            Reason::Bit128 => 6,
            Reason::Char => 7,
            Reason::EnumNonExhaustive => 8,
            Reason::EnumNonExhaustiveVariant => 9,
            Reason::EnumNoRepresentation => 10,
            Reason::StructFieldless => 11,
            Reason::UnionFieldless => 12,
            Reason::StructNonExhaustive => 13,
            Reason::UnionNonExhaustive => 14,
            Reason::UnionLayout => 15,
            Reason::StructLayout => 16,
            Reason::Box => 17,
            Reason::EnumPhantomData => 18,
            Reason::StructZeroSized => 19,
            Reason::Array => 20,
            Reason::OnlyPhantomData => 21,
        }
    }

    /// The number under which a reason is reported.
    pub fn code(self) -> (code: i32)
        ensures
            code == self.spec_code(),
    {
        match self {
            Reason::Opaque => 0,
            Reason::FnPtr => 1,
            Reason::Tuple => 2,
            Reason::Str => 3,
            Reason::Dyn => 4,
            Reason::Slice => 5,
            Reason::Bit128 => 6,
            Reason::Char => 7,
            Reason::EnumNonExhaustive => 8,
            Reason::EnumNonExhaustiveVariant => 9,
            Reason::EnumNoRepresentation => 10,
            Reason::StructFieldless => 11,
            Reason::UnionFieldless => 12,
            Reason::StructNonExhaustive => 13,
            Reason::UnionNonExhaustive => 14,
            Reason::UnionLayout => 15,
            Reason::StructLayout => 16,
            Reason::Box => 17,
            Reason::EnumPhantomData => 18,
            Reason::StructZeroSized => 19,
            Reason::Array => 20,
            Reason::OnlyPhantomData => 21,
        }
    }
}

/// Distinct reasons are reported under distinct numbers, all of them between
/// zero and twenty-one.
pub proof fn lemma_reason_codes_distinct(a: Reason, b: Reason)
    ensures
        a.spec_code() == b.spec_code() <==> a == b,
        0 <= a.spec_code() <= 21,
{
}

/// Why a check stops without a verdict.
///
/// All but `Undescribed` stand for a program the compiler would not have
/// accepted, or for one the lint cannot continue on; the caller is expected
/// to abort. After `Undescribed` the caller describes the type and asks again.
#[derive(Clone, Copy, Debug, PartialEq, Eq, Structural)]
pub enum CheckError {
    /// The check needs a type that the table does not describe yet.
    Undescribed(Ty),
    /// A type contains itself by value.
    InfiniteType(Ty),
    /// The projections in the type cannot be resolved.
    CannotNormalize(Ty),
    /// A struct or a union is described without its one variant.
    NoVariant(Ty),
    /// A type that should wrap one field of non-zero size does not.
    WrongFieldCount(Ty),
    /// A type that is never null has no nullable counterpart.
    NoNullableType(Ty),
    /// The size of the type cannot be computed.
    UnknownSize(Ty),
    /// The layout of the type cannot be computed.
    UnknownLayout(Ty),
    /// An `Option`-like enum is larger than the non-null value in it.
    NonnullOptimizationNotApplied(Ty),
    /// A scalar that is never null has an unforeseen range of valid values.
    UnhandledRange { start: u128, end: u128 },
    /// A type that has no place in a foreign signature.
    UnexpectedType(Ty),
    /// No lint of the wanted name is registered.
    UnknownLint,
}

} // verus!
