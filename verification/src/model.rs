//! The kinds a schema field can have: its container shape and scalar type.

use vstd::prelude::*;

verus! {

/// High-level container category for a schema field: a required single
/// value, a required array, an optional value, or an optional array.
#[derive(Clone, Copy, Debug, PartialEq, Eq, Structural)]
pub enum ContainerKind {
    Plain,
    Vec,
    Option,
    OptionVec,
}

/// Supported integer widths for schema fields.  A stored integer is always
/// 64-bit and signed; narrower or unsigned widths apply a range check.
#[derive(Clone, Copy, Debug, PartialEq, Eq, Structural)]
pub enum IntegerKind {
    I8,
    I16,
    I32,
    I64,
    Isize,
    U8,
    U16,
    U32,
    U64,
    Usize,
}

/// Supported floating-point widths for schema fields.  A stored float is
/// always 64-bit; the narrower width adds a finiteness and range check, and
/// the value is kept in its 64-bit encoding.
#[derive(Clone, Copy, Debug, PartialEq, Eq, Structural)]
pub enum FloatKind {
    F32,
    F64,
}

/// Primitive scalar type of a schema field.
#[derive(Clone, Copy, Debug, PartialEq, Eq, Structural)]
pub enum ScalarKind {
    String,
    Bool,
    Integer(IntegerKind),
    Float(FloatKind),
    Datetime,
}

/// Fully classified field type: container and scalar.
#[derive(Clone, Copy, Debug, PartialEq, Eq, Structural)]
pub struct FieldType {
    pub container: ContainerKind,
    pub scalar: ScalarKind,
}

/// The name of the integer width, as it appears in range error messages.
pub open spec fn integer_kind_name(k: IntegerKind) -> Seq<char> {
    match k {
        IntegerKind::I8 => "i8"@,
        IntegerKind::I16 => "i16"@,
        IntegerKind::I32 => "i32"@,
        IntegerKind::I64 => "i64"@,
        IntegerKind::Isize => "isize"@,
        IntegerKind::U8 => "u8"@,
        IntegerKind::U16 => "u16"@,
        IntegerKind::U32 => "u32"@,
        IntegerKind::U64 => "u64"@,
        IntegerKind::Usize => "usize"@,
    }
}

impl IntegerKind {
    /// The width's name, used in range error messages.
    pub fn name(&self) -> (r: &'static str)
        ensures
            r@ == integer_kind_name(*self),
    {
        match self {
            IntegerKind::I8 => "i8",
            IntegerKind::I16 => "i16",
            IntegerKind::I32 => "i32",
            IntegerKind::I64 => "i64",
            IntegerKind::Isize => "isize",
            IntegerKind::U8 => "u8",
            IntegerKind::U16 => "u16",
            IntegerKind::U32 => "u32",
            IntegerKind::U64 => "u64",
            IntegerKind::Usize => "usize",
        }
    }
}

/// The store setter a field of the given type is written with.
pub open spec fn setter_name_model(kind: FieldType, vec: bool) -> Seq<char> {
    if vec {
        match kind.scalar {
            ScalarKind::String => "set_string_vec"@,
            ScalarKind::Bool => "set_boolean_vec"@,
            ScalarKind::Integer(_) => "set_integer_vec"@,
            ScalarKind::Float(_) => "set_float_vec"@,
            ScalarKind::Datetime => "set_datetime_vec"@,
        }
    } else {
        match kind.scalar {
            ScalarKind::String => "set_string"@,
            ScalarKind::Bool => "set_boolean"@,
            ScalarKind::Integer(_) => "set_integer"@,
            ScalarKind::Float(_) => "set_float"@,
            ScalarKind::Datetime => "set_datetime"@,
        }
    }
}

/// Resolves the name of the store setter for a field of the given type.
pub fn setter_name(kind: &FieldType, vec: bool) -> (r: &'static str)
    ensures
        r@ == setter_name_model(*kind, vec),
{
    match (vec, &kind.scalar) {
        (false, ScalarKind::String) => "set_string",
        (false, ScalarKind::Bool) => "set_boolean",
        (false, ScalarKind::Integer(_)) => "set_integer",
        (false, ScalarKind::Float(_)) => "set_float",
        (false, ScalarKind::Datetime) => "set_datetime",
        (true, ScalarKind::String) => "set_string_vec",
        (true, ScalarKind::Bool) => "set_boolean_vec",
        (true, ScalarKind::Integer(_)) => "set_integer_vec",
        (true, ScalarKind::Float(_)) => "set_float_vec",
        (true, ScalarKind::Datetime) => "set_datetime_vec",
    }
}

} // verus!
