//! The values the encoder walks: scalars, strings, bytes, sequences, maps,
//! records and enum variants, each consumed once, left to right, depth first.
use vstd::prelude::*;

verus! {

/// The width of an integer, which names its type in errors.
#[derive(Clone, Copy, Debug, PartialEq, Eq)]
pub enum IntWidth {
    W8,
    W16,
    W32,
    W64,
    W128,
}

/// The width of a float, which names its type in errors.
#[derive(Clone, Copy, Debug, PartialEq, Eq)]
pub enum FloatWidth {
    F32,
    F64,
}

/// How an ordered list of values was declared.
#[derive(Clone, Copy, Debug, PartialEq, Eq)]
pub enum SeqKind {
    /// A list whose length may be streamed (`Vec`, slices).
    Sequence,
    /// A tuple, `(a, b)`.
    Tuple,
    /// A tuple struct, `Point(a, b)`.
    TupleStruct,
}

/// A value to encode.
#[derive(Debug)]
pub enum Value {
    /// The unit value `()`.
    Unit,
    /// An absent optional value.
    OptionNone,
    /// A struct without fields.
    UnitStruct,
    Bool(bool),
    /// A signed integer of the given width.
    Int(i128, IntWidth),
    /// An unsigned integer of the given width.
    UInt(u128, IntWidth),
    /// A float: `Some` holds the shortest decimal text that reads back as the
    /// same finite number, `None` stands for NaN and the infinities.
    Float(Option<String>, FloatWidth),
    Char(char),
    Str(String),
    Bytes(Vec<u8>),
    /// An ordered list of values.
    Sequence(Vec<Value>, SeqKind),
    /// Key-value pairs in the order given.
    Mapping(Vec<(Value, Value)>),
    /// A struct: named fields in declaration order.
    Record(Vec<(String, Value)>),
    /// An enum variant without data, by name.
    UnitVariant(String),
    /// An enum variant holding one value.
    NewtypeVariant(String, Box<Value>),
    /// An enum variant holding an ordered list of values.
    TupleVariant(String, Vec<Value>),
    /// An enum variant holding named fields.
    StructVariant(String, Vec<(String, Value)>),
}

/// The name of an integer type.
pub open spec fn int_type_name(w: IntWidth, signed: bool) -> Seq<char> {
    match (w, signed) {
        (IntWidth::W8, true) => "i8"@,
        (IntWidth::W16, true) => "i16"@,
        (IntWidth::W32, true) => "i32"@,
        (IntWidth::W64, true) => "i64"@,
        (IntWidth::W128, true) => "i128"@,
        (IntWidth::W8, false) => "u8"@,
        (IntWidth::W16, false) => "u16"@,
        (IntWidth::W32, false) => "u32"@,
        (IntWidth::W64, false) => "u64"@,
        (IntWidth::W128, false) => "u128"@,
    }
}

/// The name of a float type.
pub open spec fn float_type_name(w: FloatWidth) -> Seq<char> {
    match w {
        FloatWidth::F32 => "f32"@,
        FloatWidth::F64 => "f64"@,
    }
}

/// The name of a kind of list.
pub open spec fn seq_kind_name(k: SeqKind) -> Seq<char> {
    match k {
        SeqKind::Sequence => "Seq"@,
        SeqKind::Tuple => "Tuple"@,
        SeqKind::TupleStruct => "TupleStruct"@,
    }
}

/// The name of an integer type.
pub fn int_name(w: IntWidth, signed: bool) -> (r: &'static str)
    ensures
        r@ == int_type_name(w, signed),
{
    match (w, signed) {
        (IntWidth::W8, true) => "i8",
        (IntWidth::W16, true) => "i16",
        (IntWidth::W32, true) => "i32",
        (IntWidth::W64, true) => "i64",
        (IntWidth::W128, true) => "i128",
        (IntWidth::W8, false) => "u8",
        (IntWidth::W16, false) => "u16",
        (IntWidth::W32, false) => "u32",
        (IntWidth::W64, false) => "u64",
        (IntWidth::W128, false) => "u128",
    }
}

/// The name of a float type.
pub fn float_name(w: FloatWidth) -> (r: &'static str)
    ensures
        r@ == float_type_name(w),
{
    match w {
        FloatWidth::F32 => "f32",
        FloatWidth::F64 => "f64",
    }
}

/// The name of a kind of list.
pub fn seq_name(k: SeqKind) -> (r: &'static str)
    ensures
        r@ == seq_kind_name(k),
{
    match k {
        SeqKind::Sequence => "Seq",
        SeqKind::Tuple => "Tuple",
        SeqKind::TupleStruct => "TupleStruct",
    }
}

} // verus!
