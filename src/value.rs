//! The data model: the values the encoder writes, the shapes the decoder is
//! asked to read, and the mathematical model of a value.
use vstd::prelude::*;

use crate::order::signed_of;

verus! {

/// A value described in the codec's data model.
///
/// Floating-point numbers are held as their IEEE-754 bit patterns, which is all
/// that the codec reads or writes of them.
#[derive(Debug)]
pub enum Value {
    I8(i8),
    U8(u8),
    I16(i16),
    U16(u16),
    I32(i32),
    U32(u32),
    I64(i64),
    U64(u64),
    I128(i128),
    U128(u128),
    /// A single-precision float, by its bit pattern.
    F32(u32),
    /// A double-precision float, by its bit pattern.
    F64(u64),
    Bool(bool),
    Char(char),
    Str(String),
    Bytes(Vec<u8>),
    /// An optional value: `None` or `Some(x)`.
    Optional(Option<Box<Value>>),
    /// The unit value `()`.
    Unit,
    /// A struct without fields.
    UnitStruct,
    /// An enumeration variant without data.
    UnitVariant,
    /// A struct with a single unnamed field.
    Newtype(Box<Value>),
    /// An enumeration variant with a single unnamed field.
    NewtypeVariant(Box<Value>),
    /// A sequence whose length is not part of its type.
    Sequence(Vec<Value>),
    /// A tuple, tuple struct or fixed-length array.
    Tuple(Vec<Value>),
    /// An enumeration variant with unnamed fields.
    TupleVariant(Vec<Value>),
    /// A struct with named fields, the fields in declaration order.
    Struct(Vec<Value>),
    /// An enumeration variant with named fields, the fields in declaration order.
    StructVariant(Vec<Value>),
    /// A map, as its entries in iteration order.
    Mapping(Vec<(Value, Value)>),
}

/// The mathematical model of a [`Value`]: strings as their characters,
/// collections as sequences.
pub enum Datum {
    I8(i8),
    U8(u8),
    I16(i16),
    U16(u16),
    I32(i32),
    U32(u32),
    I64(i64),
    U64(u64),
    I128(i128),
    U128(u128),
    F32(u32),
    F64(u64),
    Bool(bool),
    Char(char),
    Str(Seq<char>),
    Bytes(Seq<u8>),
    Optional(Option<Box<Datum>>),
    Unit,
    UnitStruct,
    UnitVariant,
    Newtype(Box<Datum>),
    NewtypeVariant(Box<Datum>),
    Sequence(Seq<Datum>),
    Tuple(Seq<Datum>),
    TupleVariant(Seq<Datum>),
    Struct(Seq<Datum>),
    StructVariant(Seq<Datum>),
    Mapping(Seq<(Datum, Datum)>),
}

impl View for Value {
    type V = Datum;

    open spec fn view(&self) -> Datum {
        model(*self)
    }
}

/// The model of a value.
pub open spec fn model(v: Value) -> Datum
    decreases v, 1int,
{
    match v {
        Value::I8(x) => Datum::I8(x),
        Value::U8(x) => Datum::U8(x),
        Value::I16(x) => Datum::I16(x),
        Value::U16(x) => Datum::U16(x),
        Value::I32(x) => Datum::I32(x),
        Value::U32(x) => Datum::U32(x),
        Value::I64(x) => Datum::I64(x),
        Value::U64(x) => Datum::U64(x),
        Value::I128(x) => Datum::I128(x),
        Value::U128(x) => Datum::U128(x),
        Value::F32(x) => Datum::F32(x),
        Value::F64(x) => Datum::F64(x),
        Value::Bool(x) => Datum::Bool(x),
        Value::Char(x) => Datum::Char(x),
        Value::Str(s) => Datum::Str(s@),
        Value::Bytes(b) => Datum::Bytes(b@),
        Value::Optional(o) => match o {
            Option::None => Datum::Optional(Option::None),
            Option::Some(b) => Datum::Optional(Option::Some(Box::new(model(*b)))),
        },
        Value::Unit => Datum::Unit,
        Value::UnitStruct => Datum::UnitStruct,
        Value::UnitVariant => Datum::UnitVariant,
        Value::Newtype(b) => Datum::Newtype(Box::new(model(*b))),
        Value::NewtypeVariant(b) => Datum::NewtypeVariant(Box::new(model(*b))),
        Value::Sequence(v) => Datum::Sequence(models(v)),
        Value::Tuple(v) => Datum::Tuple(models(v)),
        Value::TupleVariant(v) => Datum::TupleVariant(models(v)),
        Value::Struct(v) => Datum::Struct(models(v)),
        Value::StructVariant(v) => Datum::StructVariant(models(v)),
        Value::Mapping(v) => Datum::Mapping(entry_models(v)),
    }
}

/// The models of the values in `v`, in order.
pub open spec fn models(v: Vec<Value>) -> Seq<Datum>
    decreases v, 0int,
{
    Seq::new(v.len() as nat, |i: int| if 0 <= i < v.len() { model(v[i]) } else { Datum::Unit })
}

/// The models of the entries in `v`, in order.
pub open spec fn entry_models(v: Vec<(Value, Value)>) -> Seq<(Datum, Datum)>
    decreases v, 0int,
{
    Seq::new(
        v.len() as nat,
        |i: int|
            if 0 <= i < v.len() {
                (model(v[i].0), model(v[i].1))
            } else {
                (Datum::Unit, Datum::Unit)
            },
    )
}

/// The shape of a value that the decoder is asked to read.
///
/// Booleans, optional values, enumerations, maps, and the self-describing
/// shapes (any value, an identifier, an ignored value) can be asked for, and
/// are refused: nothing in the bytes tells their variants apart.
#[derive(Debug)]
pub enum Shape {
    I8,
    U8,
    I16,
    U16,
    I32,
    U32,
    I64,
    U64,
    I128,
    U128,
    /// A single-precision float, read as its bit pattern.
    F32,
    /// A double-precision float, read as its bit pattern.
    F64,
    Bool,
    Char,
    /// A string: every remaining byte, as UTF-8.
    Str,
    /// A byte buffer: every remaining byte.
    Bytes,
    Optional,
    Unit,
    UnitStruct,
    /// A struct with a single unnamed field of the given shape.
    Newtype(Box<Shape>),
    /// A sequence of elements of the given shape, read until the bytes run out.
    Sequence(Box<Shape>),
    /// A tuple, tuple struct or fixed-length array, with one shape per field.
    Tuple(Vec<Shape>),
    /// A struct with named fields, with one shape per field in declaration order.
    Struct(Vec<Shape>),
    Enum,
    Mapping,
    Any,
    Identifier,
    IgnoredAny,
}

/// The number of bytes that a number of shape `s` takes; zero for a shape
/// that is not a number.
pub open spec fn width_of(s: Shape) -> nat {
    match s {
        Shape::I8 | Shape::U8 => 1,
        Shape::I16 | Shape::U16 => 2,
        Shape::I32 | Shape::U32 | Shape::F32 => 4,
        Shape::I64 | Shape::U64 | Shape::F64 => 8,
        Shape::I128 | Shape::U128 => 16,
        _ => 0,
    }
}

/// The number of shape `s` whose pattern, read as an unsigned number, is `n`.
pub open spec fn number_of(s: Shape, n: nat) -> Datum {
    match s {
        Shape::I8 => Datum::I8(signed_of(n, 1) as i8),
        Shape::U8 => Datum::U8(n as u8),
        Shape::I16 => Datum::I16(signed_of(n, 2) as i16),
        Shape::U16 => Datum::U16(n as u16),
        Shape::I32 => Datum::I32(signed_of(n, 4) as i32),
        Shape::U32 => Datum::U32(n as u32),
        Shape::I64 => Datum::I64(signed_of(n, 8) as i64),
        Shape::U64 => Datum::U64(n as u64),
        Shape::I128 => Datum::I128(signed_of(n, 16) as i128),
        Shape::U128 => Datum::U128(n as u128),
        Shape::F32 => Datum::F32(n as u32),
        _ => Datum::F64(n as u64),
    }
}

/// Whether decoding shape `s` is refused outright.
pub open spec fn is_unsupported(s: Shape) -> bool {
    match s {
        Shape::Bool | Shape::Optional | Shape::Enum | Shape::Mapping | Shape::Any
        | Shape::Identifier | Shape::IgnoredAny => true,
        _ => false,
    }
}

} // verus!
