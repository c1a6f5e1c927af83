//! The kinds of register values and the forms they are shown in.
use vstd::prelude::*;

verus! {

/// How a register value is written as text.
#[derive(Debug, Clone, Copy, PartialEq, Eq, Structural)]
pub enum DisplayFormat {
    Binary,
    Octal,
    Decimal,
    Hexadecimal,
}

impl Default for DisplayFormat {
    fn default() -> (f: Self)
        ensures
            f == DisplayFormat::Decimal,
    {
        DisplayFormat::Decimal
    }
}

/// How the words of one or more registers are read as a number.
#[derive(Debug, Clone, Copy, PartialEq, Eq, Structural)]
pub enum RegType {
    U16,
    I16,
    U32,
    I32,
    F32,
    U64,
    I64,
    F64,
}

impl Default for RegType {
    fn default() -> (t: Self)
        ensures
            t == RegType::I16,
    {
        RegType::I16
    }
}

impl RegType {
    /// The number of 16-bit registers a value of this type occupies.
    pub open spec fn width(self) -> nat {
        match self {
            RegType::U16 | RegType::I16 => 1,
            RegType::U32 | RegType::I32 | RegType::F32 => 2,
            RegType::U64 | RegType::I64 | RegType::F64 => 4,
        }
    }

    /// Whether values of this type are IEEE-754 floats.
    pub open spec fn is_float(self) -> bool {
        self == RegType::F32 || self == RegType::F64
    }

    /// The number of registers a value of this type occupies: 1, 2 or 4.
    pub fn span(&self) -> (n: usize)
        ensures
            n == self.width(),
            n == 1 || n == 2 || n == 4,
    {
        match self {
            RegType::U16 | RegType::I16 => 1,
            RegType::U32 | RegType::I32 | RegType::F32 => 2,
            RegType::U64 | RegType::I64 | RegType::F64 => 4,
        }
    }
}

/// A register value. The float variants hold the IEEE-754 bit pattern of the
/// float (`F32` the bits of an `f32`, `F64` those of an `f64`).
#[derive(Debug, Clone, Copy, PartialEq, Eq, Structural)]
pub enum DValue {
    U16(u16),
    I16(i16),
    U32(u32),
    I32(i32),
    F32(u32),
    U64(u64),
    I64(i64),
    F64(u64),
}

impl DValue {
    /// The register type whose values this one is.
    pub open spec fn reg_type(self) -> RegType {
        match self {
            DValue::U16(_) => RegType::U16,
            DValue::I16(_) => RegType::I16,
            DValue::U32(_) => RegType::U32,
            DValue::I32(_) => RegType::I32,
            DValue::F32(_) => RegType::F32,
            DValue::U64(_) => RegType::U64,
            DValue::I64(_) => RegType::I64,
            DValue::F64(_) => RegType::F64,
        }
    }
}

/// A value made ready for display.
#[derive(Debug, Clone, PartialEq, Eq)]
pub enum Rendered {
    /// The finished text.
    Text(String),
    /// An `f32` shown in decimal, given by its bits: its text is a
    /// floating-point rendering, which the caller makes.
    Float32(u32),
    /// An `f64` shown in decimal, given by its bits.
    Float64(u64),
}

/// The outcome of reading a value from text.
#[derive(Debug, Clone, PartialEq, Eq)]
pub enum Parsed<T> {
    /// The text was read as this value.
    Value(T),
    /// The text is not a value of the requested type in the requested format.
    Invalid,
    /// The requested type is a float and the format decimal: the text is a
    /// floating-point literal, which the caller reads.
    DecimalFloat,
}

} // verus!
