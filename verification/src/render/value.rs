//! The values of a paused program as the renderer sees them: scalars,
//! operands, and for each typed value what the interpreter answered when it
//! was asked to read it.

use vstd::prelude::*;

verus! {

/// A place in memory: an allocation and a byte offset into it.
#[derive(Clone, Copy, Debug)]
pub struct Pointer {
    pub alloc_id: u64,
    pub offset: u64,
}

/// One machine word.
#[derive(Clone, Copy, Debug)]
pub enum Scalar {
    /// A bit pattern that is `size` bytes wide.
    Bits { size: u8, bits: u128 },
    Ptr(Pointer),
}

/// A machine word that may not have been written yet.
#[derive(Clone, Copy, Debug)]
pub enum ScalarMaybeUndef {
    Scalar(Scalar),
    Undef,
}

/// A value held outside memory: one word, or two for a fat pointer.
#[derive(Clone, Copy, Debug)]
pub enum Value {
    Scalar(ScalarMaybeUndef),
    ScalarPair(ScalarMaybeUndef, ScalarMaybeUndef),
}

/// A value held in memory. `meta` is the length or vtable of an unsized
/// value and absent where the size is known from the type.
#[derive(Clone, Copy, Debug)]
pub struct MemPlace {
    pub ptr: Scalar,
    pub meta: Option<Scalar>,
}

/// Where a value lives.
#[derive(Clone, Copy, Debug)]
pub enum Operand {
    Immediate(Value),
    Indirect(MemPlace),
}

/// How a type is laid out when it is passed around.
#[derive(Clone, Copy, Debug)]
pub enum Abi {
    Uninhabited,
    Scalar,
    ScalarPair,
    Vector,
    Aggregate,
}

/// The width of a floating-point type.
#[derive(Clone, Copy, Debug)]
pub enum FloatTy {
    F32,
    F64,
}

/// One variant of a struct or enum type: its name and the names of its fields.
#[derive(Clone, Debug)]
pub struct VariantDef {
    pub name: String,
    pub fields: Vec<String>,
}

/// A struct or enum type. A struct has exactly one variant.
#[derive(Clone, Debug)]
pub struct AdtDef {
    /// The absolute path of the type, as written in source.
    pub path: String,
    pub is_enum: bool,
    pub variants: Vec<VariantDef>,
}

/// The kinds of type that the pretty-printer tells apart.
#[derive(Clone, Debug)]
pub enum TyKind {
    /// A raw pointer or a reference to string data.
    Str,
    Adt(AdtDef),
    Bool,
    Char,
    Uint,
    Int,
    Float(FloatTy),
    Other,
}

/// A typed value, together with what the interpreter answers about it.
///
/// The renderer never reads memory to find a value's parts. Whoever takes
/// the snapshot asks the interpreter and records the answers here, a failed
/// read as `None`.
#[derive(Debug)]
pub struct OpTy {
    pub op: Operand,
    pub ty: TyKind,
    /// The size of the type in bytes.
    pub size: u64,
    pub abi: Abi,
    /// The value read as one scalar.
    pub scalar: Option<ScalarMaybeUndef>,
    /// The index of the active variant, read from the value.
    pub discriminant: Option<usize>,
    /// The fields of the active variant, each resolved to a value of its own.
    pub fields: Vec<Option<OpTy>>,
    /// The decimal text of the value's bits taken as a floating-point number
    /// of the declared width. Read for floating-point types only.
    pub float: String,
    /// The interpreter's own text of the place of the value. Read only for
    /// a value in memory whose size is not known from its type.
    pub place_debug: String,
}

/// Why a value could not be pretty-printed.
#[derive(Clone, Copy, Debug, PartialEq, Eq, Structural)]
pub enum PrettyError {
    /// The value has a shape, a size or a bit pattern that its type does not
    /// allow.
    AssumptionNotHeld,
    /// The interpreter could not read the value, or read undefined bytes.
    Unreadable,
}

} // verus!
