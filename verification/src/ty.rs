//! The table of types that a check walks over.
//!
//! A type is known by its place in a [`TyCtxt`]. It is declared first and
//! described later, so that recursive types can name themselves and so that
//! only the types a check asks for have to be described.

use vstd::prelude::*;

use crate::error::CheckError;

verus! {

/// A type, by its place in the table. Equal types have the same place.
pub type Ty = usize;

#[derive(Clone, Copy, Debug, PartialEq, Eq, Structural)]
pub enum IntTy {
    Isize,
    I8,
    I16,
    I32,
    I64,
    I128,
}

#[derive(Clone, Copy, Debug, PartialEq, Eq, Structural)]
pub enum UintTy {
    Usize,
    U8,
    U16,
    U32,
    U64,
    U128,
}

#[derive(Clone, Copy, Debug, PartialEq, Eq, Structural)]
pub enum FloatTy {
    F32,
    F64,
}

#[derive(Clone, Copy, Debug, PartialEq, Eq, Structural)]
pub enum Mutability {
    Not,
    Mut,
}

/// What a pointer points to, and whether it may be written through.
#[derive(Clone, Copy, Debug, PartialEq, Eq, Structural)]
pub struct TypeAndMut {
    pub ty: Ty,
    pub mutbl: Mutability,
}

#[derive(Clone, Copy, Debug, PartialEq, Eq, Structural)]
pub enum AliasKind {
    Projection,
    Opaque,
}

/// The calling conventions that Rust keeps to itself, and all the others.
#[derive(Clone, Copy, Debug, PartialEq, Eq, Structural)]
pub enum AbiKind {
    Rust,
    RustCall,
    RustIntrinsic,
    PlatformIntrinsic,
    Foreign,
}

impl AbiKind {
    /// Whether no foreign code can use the calling convention.
    pub open spec fn spec_is_internal(self) -> bool {
        self is Rust || self is RustCall || self is RustIntrinsic || self is PlatformIntrinsic
    }

    /// Whether no foreign code can use the calling convention.
    pub fn is_internal(self) -> (r: bool)
        ensures
            r == self.spec_is_internal(),
    {
        matches!(
            self,
            AbiKind::Rust | AbiKind::RustCall | AbiKind::RustIntrinsic | AbiKind::PlatformIntrinsic
        )
    }
}

/// A function signature with its late-bound regions erased.
#[derive(Debug)]
pub struct FnSig {
    pub abi: AbiKind,
    pub inputs: Vec<Ty>,
    pub output: Ty,
}

#[derive(Clone, Copy, Debug, PartialEq, Eq, Structural)]
pub enum AdtKind {
    Struct,
    Union,
    Enum,
}

/// The `repr` attributes of a definition; `int` is whether one of them names
/// an integer type.
#[derive(Clone, Copy, Debug, PartialEq, Eq, Structural)]
pub struct ReprOptions {
    pub c: bool,
    pub transparent: bool,
    pub int: bool,
}

/// A field of an instantiated definition.
#[derive(Clone, Copy, Debug, PartialEq, Eq, Structural)]
pub struct FieldDef {
    /// The type of the field with the arguments of the definition put in.
    pub ty: Ty,
    /// Whether the type that the definition declares is zero-sized, judged in
    /// the definition's own environment; `None` where its layout is unknown
    /// there.
    pub declared_is_zst: Option<bool>,
}

#[derive(Debug)]
pub struct VariantDef {
    pub fields: Vec<FieldDef>,
    pub is_field_list_non_exhaustive: bool,
    /// Whether the variant is defined in the crate under check.
    pub is_local: bool,
}

/// A struct, union or enum definition, instantiated.
#[derive(Debug)]
pub struct AdtDef {
    pub kind: AdtKind,
    pub repr: ReprOptions,
    /// The boxed type, where the definition is `Box`.
    pub boxed_ty: Option<Ty>,
    pub is_phantom_data: bool,
    pub is_unsafe_cell: bool,
    /// Whether the definition carries the attribute that promises the
    /// null-pointer optimization.
    pub nonnull_optimization_guaranteed: bool,
    /// Whether the definition is in the crate under check.
    pub is_local: bool,
    pub is_variant_list_non_exhaustive: bool,
    pub variants: Vec<VariantDef>,
}

#[derive(Debug)]
pub enum TyKind {
    Bool,
    Char,
    Int(IntTy),
    Uint(UintTy),
    Float(FloatTy),
    Adt(AdtDef),
    Foreign,
    Str,
    Array(Ty),
    Slice(Ty),
    RawPtr(TypeAndMut),
    Ref(TypeAndMut),
    FnDef,
    FnPtr(FnSig),
    Dynamic,
    Closure,
    Generator,
    GeneratorWitness,
    Never,
    Tuple(Vec<Ty>),
    Param,
    Bound,
    Placeholder,
    Infer,
    Error,
    Alias(AliasKind),
}

/// What is known of the size of a type before code generation.
#[derive(Clone, Copy, Debug, PartialEq, Eq, Structural)]
pub enum SizeSkeleton {
    /// A size in bytes.
    Known(u64),
    /// A pointer, possibly a wide one, whose metadata is that of `tail`.
    Pointer { non_zero: bool, tail: Ty },
}

impl SizeSkeleton {
    /// Whether two types are certain to have the same size.
    pub open spec fn spec_same_size(self, other: SizeSkeleton) -> bool {
        match (self, other) {
            (SizeSkeleton::Known(a), SizeSkeleton::Known(b)) => a == b,
            (SizeSkeleton::Pointer { tail: a, .. }, SizeSkeleton::Pointer { tail: b, .. }) => a
                == b,
            _ => false,
        }
    }

    /// Whether two types are certain to have the same size.
    pub fn same_size(self, other: SizeSkeleton) -> (r: bool)
        ensures
            r == self.spec_same_size(other),
    {
        match (self, other) {
            (SizeSkeleton::Known(a), SizeSkeleton::Known(b)) => a == b,
            (SizeSkeleton::Pointer { tail: a, .. }, SizeSkeleton::Pointer { tail: b, .. }) => a
                == b,
            _ => false,
        }
    }
}

/// A scalar in memory: the range of its valid values, which may wrap around,
/// and the largest unsigned number that its size can hold.
#[derive(Clone, Copy, Debug, PartialEq, Eq, Structural)]
pub struct Scalar {
    pub valid_start: u128,
    pub valid_end: u128,
    pub unsigned_int_max: u128,
}

/// How a value is laid out in memory.
#[derive(Clone, Copy, Debug, PartialEq, Eq, Structural)]
pub enum Layout {
    Scalar(Scalar),
    Other,
}

/// The description of a type.
#[derive(Debug)]
pub struct TyData {
    pub kind: TyKind,
    /// The type as it is printed.
    pub str_rep: String,
    pub is_sized: bool,
    /// Whether an opaque type occurs in the type.
    pub has_opaque_types: bool,
    /// The types that a visitor of this type goes on to, in order.
    pub components: Vec<Ty>,
    /// The type with its projections resolved and its regions erased; `None`
    /// where that cannot be done.
    pub normalized: Option<Ty>,
    /// `None` where no size can be computed.
    pub size_skeleton: Option<SizeSkeleton>,
    /// `None` where no layout can be computed.
    pub layout: Option<Layout>,
}

/// The table of types.
#[derive(Debug)]
pub struct TyCtxt {
    pub types: Vec<Option<TyData>>,
}

impl TyCtxt {
    /// The number of types declared.
    pub open spec fn len(self) -> nat {
        self.types.len() as nat
    }

    /// Whether a type is described.
    pub open spec fn described(self, ty: Ty) -> bool {
        ty < self.len() && self.types@[ty as int] is Some
    }

    /// The description of a type that is described.
    pub open spec fn data_of(self, ty: Ty) -> TyData {
        self.types@[ty as int]->0
    }

    /// The kind of a type that is described.
    pub open spec fn kind_of(self, ty: Ty) -> TyKind {
        self.data_of(ty).kind
    }

    /// Looks a type up.
    pub open spec fn lookup(self, ty: Ty) -> Result<TyData, CheckError> {
        if self.described(ty) {
            Ok(self.data_of(ty))
        } else {
            Err(CheckError::Undescribed(ty))
        }
    }

    /// An empty table.
    pub fn new() -> (tcx: TyCtxt)
        ensures
            tcx.len() == 0,
    {
        TyCtxt { types: Vec::new() }
    }

    /// Declares one more type, and says where it is.
    pub fn declare(&mut self) -> (ty: Ty)
        ensures
            ty == old(self).len(),
            final(self).types@ == old(self).types@.push(None),
    {
        let ty: Ty = self.types.len();
        self.types.push(None);
        ty
    }

    /// Describes a declared type.
    pub fn describe(&mut self, ty: Ty, data: TyData)
        requires
            ty < old(self).len(),
        ensures
            final(self).types@ == old(self).types@.update(ty as int, Some(data)),
    {
        self.types.set(ty, Some(data));
    }

    /// Looks a type up.
    pub fn data(&self, ty: Ty) -> (r: Result<&TyData, CheckError>)
        ensures
            match r {
                Ok(data) => self.described(ty) && *data == self.data_of(ty),
                Err(e) => !self.described(ty) && e == CheckError::Undescribed(ty),
            },
    {
        if ty < self.types.len() {
            match &self.types[ty] {
                Some(data) => Ok(data),
                None => Err(CheckError::Undescribed(ty)),
            }
        } else {
            Err(CheckError::Undescribed(ty))
        }
    }

    /// The type with its projections resolved and its regions erased.
    pub fn normalize_erasing_regions(&self, ty: Ty) -> (r: Result<Ty, CheckError>)
        ensures
            r == self.spec_normalize(ty),
    {
        match self.data(ty) {
            Ok(data) => match data.normalized {
                Some(normalized) => Ok(normalized),
                None => Err(CheckError::CannotNormalize(ty)),
            },
            Err(e) => Err(e),
        }
    }

    /// The type with its projections resolved and its regions erased.
    pub open spec fn spec_normalize(self, ty: Ty) -> Result<Ty, CheckError> {
        match self.lookup(ty) {
            Ok(data) => match data.normalized {
                Some(normalized) => Ok(normalized),
                None => Err(CheckError::CannotNormalize(ty)),
            },
            Err(e) => Err(e),
        }
    }

    /// Whether a type is `()`.
    pub open spec fn spec_is_unit(self, ty: Ty) -> Result<bool, CheckError> {
        match self.lookup(ty) {
            Ok(data) => Ok(data.kind.spec_is_unit()),
            Err(e) => Err(e),
        }
    }

    /// Whether a type is `()`.
    pub fn is_unit(&self, ty: Ty) -> (r: Result<bool, CheckError>)
        ensures
            r == self.spec_is_unit(ty),
    {
        match self.data(ty) {
            Ok(data) => Ok(data.kind.is_unit()),
            Err(e) => Err(e),
        }
    }
}

impl TyKind {
    /// Whether this is the kind of `()`.
    pub open spec fn spec_is_unit(self) -> bool {
        self matches TyKind::Tuple(tys) && tys@.len() == 0
    }

    /// Whether this is the kind of `()`.
    pub fn is_unit(&self) -> (r: bool)
        ensures
            r == self.spec_is_unit(),
    {
        match self {
            TyKind::Tuple(tys) => tys.len() == 0,
            _ => false,
        }
    }
}

/// The number under which a kind of type is reported.
pub open spec fn spec_tykind_discriminant(value: TyKind) -> usize {
    match value {
        TyKind::Bool => 0,
        TyKind::Char => 1,
        TyKind::Int(_) => 2,
        TyKind::Uint(_) => 3,
        TyKind::Float(_) => 4,
        TyKind::Adt(_) => 5,
        TyKind::Foreign => 6,
        TyKind::Str => 7,
        TyKind::Array(_) => 8,
        TyKind::Slice(_) => 9,
        TyKind::RawPtr(_) => 10,
        TyKind::Ref(_) => 11,
        TyKind::FnDef => 12,
        TyKind::FnPtr(_) => 13,
        TyKind::Dynamic => 14,
        TyKind::Closure => 15,
        TyKind::Generator => 16,
        TyKind::GeneratorWitness => 17,
        TyKind::Never => 18,
        TyKind::Tuple(_) => 19,
        TyKind::Param => 20,
        TyKind::Bound => 21,
        TyKind::Placeholder => 22,
        TyKind::Infer => 23,
        TyKind::Error => 24,
        TyKind::Alias(_) => 25,
    }
}

/// The number under which a kind of type is reported.
pub fn tykind_discriminant(value: &TyKind) -> (r: usize)
    ensures
        r == spec_tykind_discriminant(*value),
{
    match value {
        TyKind::Bool => 0,
        TyKind::Char => 1,
        TyKind::Int(_) => 2,
        TyKind::Uint(_) => 3,
        TyKind::Float(_) => 4,
        TyKind::Adt(_) => 5,
        TyKind::Foreign => 6,
        TyKind::Str => 7,
        TyKind::Array(_) => 8,
        TyKind::Slice(_) => 9,
        TyKind::RawPtr(_) => 10,
        TyKind::Ref(_) => 11,
        TyKind::FnDef => 12,
        TyKind::FnPtr(_) => 13,
        TyKind::Dynamic => 14,
        TyKind::Closure => 15,
        TyKind::Generator => 16,
        TyKind::GeneratorWitness => 17,
        TyKind::Never => 18,
        TyKind::Tuple(_) => 19,
        TyKind::Param => 20,
        TyKind::Bound => 21,
        TyKind::Placeholder => 22,
        TyKind::Infer => 23,
        TyKind::Error => 24,
        TyKind::Alias(_) => 25,
    }
}

/// A type is described exactly if there is a description at its place, and it is
/// described as that says. It normalizes to what its description names; what is not
/// described, or names nothing, is an error. It is `()` exactly if it is a tuple of
/// no types.
pub proof fn lemma_table(tcx: TyCtxt, ty: Ty)
    ensures
        tcx.len() == tcx.types@.len(),
        tcx.described(ty) <==> ty < tcx.types@.len() && tcx.types@[ty as int] is Some,
        tcx.described(ty) ==> {
            &&& tcx.types@[ty as int] == Some(tcx.data_of(ty))
            &&& tcx.kind_of(ty) == tcx.data_of(ty).kind
            &&& tcx.lookup(ty) == Ok::<TyData, CheckError>(tcx.data_of(ty))
            &&& tcx.data_of(ty).normalized matches Some(n) ==> tcx.spec_normalize(ty) == Ok::<
                Ty,
                CheckError,
            >(n)
            &&& tcx.data_of(ty).normalized is None ==> tcx.spec_normalize(ty) == Err::<
                Ty,
                CheckError,
            >(CheckError::CannotNormalize(ty))
            &&& tcx.spec_is_unit(ty) == Ok::<bool, CheckError>(
                tcx.kind_of(ty) matches TyKind::Tuple(tys) && tys@.len() == 0,
            )
        },
        !tcx.described(ty) ==> {
            &&& tcx.lookup(ty) == Err::<TyData, CheckError>(CheckError::Undescribed(ty))
            &&& tcx.spec_normalize(ty) == Err::<Ty, CheckError>(CheckError::Undescribed(ty))
            &&& tcx.spec_is_unit(ty) == Err::<bool, CheckError>(CheckError::Undescribed(ty))
        },
{
}

/// The number tells the kinds of types apart, whatever they are made of.
pub proof fn lemma_discriminants_distinct(a: TyKind, b: TyKind)
    requires
        spec_tykind_discriminant(a) == spec_tykind_discriminant(b),
    ensures
        spec_tykind_discriminant(a) <= 25,
        a is Bool == b is Bool,
        a is Char == b is Char,
        a is Int == b is Int,
        a is Uint == b is Uint,
        a is Float == b is Float,
        a is Adt == b is Adt,
        a is Foreign == b is Foreign,
        a is Str == b is Str,
        a is Array == b is Array,
        a is Slice == b is Slice,
        a is RawPtr == b is RawPtr,
        a is Ref == b is Ref,
        a is FnDef == b is FnDef,
        a is FnPtr == b is FnPtr,
        a is Dynamic == b is Dynamic,
        a is Closure == b is Closure,
        a is Generator == b is Generator,
        a is GeneratorWitness == b is GeneratorWitness,
        a is Never == b is Never,
        a is Tuple == b is Tuple,
        a is Param == b is Param,
        a is Bound == b is Bound,
        a is Placeholder == b is Placeholder,
        a is Infer == b is Infer,
        a is Error == b is Error,
        a is Alias == b is Alias,
{
}

} // verus!
