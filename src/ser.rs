//! The encoder: turns a value into the bytes that lay it out, in traversal
//! order, with nothing added between or around its parts.
use vstd::prelude::*;
use vstd::utf8::*;

use crate::error::Error;
use crate::order::{int_bytes, lemma_radix_values, radix, uint_bytes, ByteOrder};
use crate::text::char_utf8;
use crate::value::{entry_models, models, Datum, Value};

verus! {

/// The bytes that encode `d` in byte order `o`.
pub open spec fn encoding(d: Datum, o: ByteOrder) -> Seq<u8>
    decreases d, 1int,
{
    match d {
        Datum::I8(x) => int_bytes(x as int, 1, o),
        Datum::U8(x) => uint_bytes(x as nat, 1, o),
        Datum::I16(x) => int_bytes(x as int, 2, o),
        Datum::U16(x) => uint_bytes(x as nat, 2, o),
        Datum::I32(x) => int_bytes(x as int, 4, o),
        Datum::U32(x) => uint_bytes(x as nat, 4, o),
        Datum::I64(x) => int_bytes(x as int, 8, o),
        Datum::U64(x) => uint_bytes(x as nat, 8, o),
        Datum::I128(x) => int_bytes(x as int, 16, o),
        Datum::U128(x) => uint_bytes(x as nat, 16, o),
        Datum::F32(x) => uint_bytes(x as nat, 4, o),
        Datum::F64(x) => uint_bytes(x as nat, 8, o),
        Datum::Bool(x) => seq![if x { 1u8 } else { 0u8 }],
        Datum::Char(c) => encode_utf8(seq![c]),
        Datum::Str(s) => encode_utf8(s),
        Datum::Bytes(b) => b,
        Datum::Optional(x) => match x {
            Option::None => Seq::empty(),
            Option::Some(y) => encoding(*y, o),
        },
        Datum::Unit => Seq::empty(),
        Datum::UnitStruct => Seq::empty(),
        Datum::UnitVariant => Seq::empty(),
        Datum::Newtype(x) => encoding(*x, o),
        Datum::NewtypeVariant(x) => encoding(*x, o),
        Datum::Sequence(ds) => encodings(ds, o),
        Datum::Tuple(ds) => encodings(ds, o),
        Datum::TupleVariant(ds) => encodings(ds, o),
        Datum::Struct(ds) => encodings(ds, o),
        Datum::StructVariant(ds) => encodings(ds, o),
        Datum::Mapping(es) => entry_encodings(es, o),
    }
}

/// The encodings of `ds`, back to back.
pub open spec fn encodings(ds: Seq<Datum>, o: ByteOrder) -> Seq<u8>
    decreases ds, 0int,
{
    if ds.len() == 0 {
        Seq::empty()
    } else {
        encodings(ds.drop_last(), o) + encoding(ds.last(), o)
    }
}

/// The encodings of the entries `es`, each key followed by its value.
pub open spec fn entry_encodings(es: Seq<(Datum, Datum)>, o: ByteOrder) -> Seq<u8>
    decreases es, 0int,
{
    if es.len() == 0 {
        Seq::empty()
    } else {
        entry_encodings(es.drop_last(), o) + encoding(es.last().0, o) + encoding(es.last().1, o)
    }
}

/// The encodings of a sequence are the first one's followed by the rest's.
pub proof fn lemma_encodings_first(ds: Seq<Datum>, o: ByteOrder)
    requires
        ds.len() > 0,
    ensures
        encodings(ds, o) == encoding(ds[0], o) + encodings(ds.drop_first(), o),
    decreases ds.len(),
{
    if ds.len() > 1 {
        lemma_encodings_first(ds.drop_last(), o);
        assert(ds.drop_last().drop_first() =~= ds.drop_first().drop_last());
        assert(ds.drop_first().last() == ds.last());
        assert(encodings(ds.drop_first(), o) == encodings(ds.drop_first().drop_last(), o)
            + encoding(ds.last(), o));
    } else {
        assert(ds.drop_first() =~= Seq::<Datum>::empty());
        assert(ds.drop_last() =~= Seq::<Datum>::empty());
    }
}

/// Encoding a longer prefix of a sequence appends the next element's encoding.
proof fn lemma_encodings_take(ds: Seq<Datum>, i: int, o: ByteOrder)
    requires
        0 <= i < ds.len(),
    ensures
        encodings(ds.take(i + 1), o) == encodings(ds.take(i), o) + encoding(ds[i], o),
{
    assert(ds.take(i + 1).drop_last() =~= ds.take(i));
}

/// Encoding a longer prefix of a map's entries appends the next entry's encoding.
proof fn lemma_entry_encodings_take(es: Seq<(Datum, Datum)>, i: int, o: ByteOrder)
    requires
        0 <= i < es.len(),
    ensures
        entry_encodings(es.take(i + 1), o) == entry_encodings(es.take(i), o) + encoding(es[i].0, o)
            + encoding(es[i].1, o),
{
    assert(es.take(i + 1).drop_last() =~= es.take(i));
}

/// An encoder that appends the bytes of each value it is given to a buffer.
pub struct Serializer {
    output: Vec<u8>,
    order: ByteOrder,
}

impl Serializer {
    /// The bytes written so far.
    pub closed spec fn written(&self) -> Seq<u8> {
        self.output@
    }

    /// The byte order used for multi-byte numbers.
    pub closed spec fn byte_order(&self) -> ByteOrder {
        self.order
    }

    /// An encoder with an empty buffer, writing numbers in byte order `order`.
    pub fn new(order: ByteOrder) -> (r: Self)
        ensures
            r.written() == Seq::<u8>::empty(),
            r.byte_order() == order,
    {
        Serializer { output: Vec::new(), order }
    }

    /// The byte order used for multi-byte numbers.
    pub fn order(&self) -> (r: ByteOrder)
        ensures
            r == self.byte_order(),
    {
        self.order
    }

    /// The bytes written so far.
    pub fn into_inner(self) -> (r: Vec<u8>)
        ensures
            r@ == self.written(),
    {
        self.output
    }

    fn append(&mut self, bytes: Vec<u8>)
        ensures
            final(self).written() == old(self).written() + bytes@,
            final(self).byte_order() == old(self).byte_order(),
    {
        let mut bytes = bytes;
        self.output.append(&mut bytes);
    }

    fn append_slice(&mut self, bytes: &[u8])
        ensures
            final(self).written() == old(self).written() + bytes@,
            final(self).byte_order() == old(self).byte_order(),
    {
        let mut i: usize = 0;
        while i < bytes.len()
            invariant
                0 <= i <= bytes@.len(),
                self.output@ == old(self).output@ + bytes@.take(i as int),
                self.order == old(self).order,
            decreases bytes.len() - i,
        {
            self.output.push(bytes[i]);
            i = i + 1;
            assert(self.output@ =~= old(self).output@ + bytes@.take(i as int));
        }
        assert(bytes@.take(i as int) =~= bytes@);
    }

    fn write_uint(&mut self, n: u128, width: usize)
        requires
            1 <= width <= 16,
            n < radix(width as nat),
        ensures
            final(self).written() == old(self).written() + uint_bytes(n as nat, width as nat, old(self).byte_order()),
            final(self).byte_order() == old(self).byte_order(),
    {
        let bytes = self.order.write_uint(n, width);
        self.append(bytes);
    }

    /// Writes `v` as one byte.
    pub fn serialize_u8(&mut self, v: u8)
        ensures
            final(self).written() == old(self).written() + encoding(Datum::U8(v), old(self).byte_order()),
            final(self).byte_order() == old(self).byte_order(),
    {
        proof { lemma_radix_values(); }
        self.write_uint(v as u128, 1);
    }

    /// Writes `v` as one byte, in two's complement.
    pub fn serialize_i8(&mut self, v: i8)
        ensures
            final(self).written() == old(self).written() + encoding(Datum::I8(v), old(self).byte_order()),
            final(self).byte_order() == old(self).byte_order(),
    {
        proof { lemma_radix_values(); }
        let u: u128 = if v < 0 { (v as i16 + 256) as u128 } else { v as u128 };
        self.write_uint(u, 1);
    }

    /// Writes `v` as two bytes in the encoder's byte order.
    pub fn serialize_u16(&mut self, v: u16)
        ensures
            final(self).written() == old(self).written() + encoding(Datum::U16(v), old(self).byte_order()),
            final(self).byte_order() == old(self).byte_order(),
    {
        proof { lemma_radix_values(); }
        self.write_uint(v as u128, 2);
    }

    /// Writes `v` as two bytes of two's complement in the encoder's byte order.
    pub fn serialize_i16(&mut self, v: i16)
        ensures
            final(self).written() == old(self).written() + encoding(Datum::I16(v), old(self).byte_order()),
            final(self).byte_order() == old(self).byte_order(),
    {
        proof { lemma_radix_values(); }
        let u: u128 = if v < 0 { (v as i32 + 0x1_0000) as u128 } else { v as u128 };
        self.write_uint(u, 2);
    }

    /// Writes `v` as four bytes in the encoder's byte order.
    pub fn serialize_u32(&mut self, v: u32)
        ensures
            final(self).written() == old(self).written() + encoding(Datum::U32(v), old(self).byte_order()),
            final(self).byte_order() == old(self).byte_order(),
    {
        proof { lemma_radix_values(); }
        self.write_uint(v as u128, 4);
    }

    /// Writes `v` as four bytes of two's complement in the encoder's byte order.
    pub fn serialize_i32(&mut self, v: i32)
        ensures
            final(self).written() == old(self).written() + encoding(Datum::I32(v), old(self).byte_order()),
            final(self).byte_order() == old(self).byte_order(),
    {
        proof { lemma_radix_values(); }
        let u: u128 = if v < 0 { (v as i64 + 0x1_0000_0000) as u128 } else { v as u128 };
        self.write_uint(u, 4);
    }

    /// Writes `v` as eight bytes in the encoder's byte order.
    pub fn serialize_u64(&mut self, v: u64)
        ensures
            final(self).written() == old(self).written() + encoding(Datum::U64(v), old(self).byte_order()),
            final(self).byte_order() == old(self).byte_order(),
    {
        proof { lemma_radix_values(); }
        self.write_uint(v as u128, 8);
    }

    /// Writes `v` as eight bytes of two's complement in the encoder's byte order.
    pub fn serialize_i64(&mut self, v: i64)
        ensures
            final(self).written() == old(self).written() + encoding(Datum::I64(v), old(self).byte_order()),
            final(self).byte_order() == old(self).byte_order(),
    {
        proof { lemma_radix_values(); }
        let u: u128 = if v < 0 {
            (v as i128 + 0x1_0000_0000_0000_0000) as u128
        } else {
            v as u128
        };
        self.write_uint(u, 8);
    }

    /// Writes `v` as sixteen bytes in the encoder's byte order.
    pub fn serialize_u128(&mut self, v: u128)
        ensures
            final(self).written() == old(self).written() + encoding(Datum::U128(v), old(self).byte_order()),
            final(self).byte_order() == old(self).byte_order(),
    {
        proof { lemma_radix_values(); }
        self.write_uint(v, 16);
    }

    /// Writes `v` as sixteen bytes of two's complement in the encoder's byte order.
    pub fn serialize_i128(&mut self, v: i128)
        ensures
            final(self).written() == old(self).written() + encoding(Datum::I128(v), old(self).byte_order()),
            final(self).byte_order() == old(self).byte_order(),
    {
        proof { lemma_radix_values(); }
        let u: u128 = if v < 0 {
            (v + i128::MAX + 1) as u128 + 0x8000_0000_0000_0000_0000_0000_0000_0000
        } else {
            v as u128
        };
        self.write_uint(u, 16);
    }

    /// Writes the single-precision float whose bit pattern is `bits`, as four
    /// bytes in the encoder's byte order.
    pub fn serialize_f32(&mut self, bits: u32)
        ensures
            final(self).written() == old(self).written() + encoding(Datum::F32(bits), old(self).byte_order()),
            final(self).byte_order() == old(self).byte_order(),
    {
        proof { lemma_radix_values(); }
        self.write_uint(bits as u128, 4);
    }

    /// Writes the double-precision float whose bit pattern is `bits`, as eight
    /// bytes in the encoder's byte order.
    pub fn serialize_f64(&mut self, bits: u64)
        ensures
            final(self).written() == old(self).written() + encoding(Datum::F64(bits), old(self).byte_order()),
            final(self).byte_order() == old(self).byte_order(),
    {
        proof { lemma_radix_values(); }
        self.write_uint(bits as u128, 8);
    }

    /// Writes `1` for true and `0` for false, as one byte.
    pub fn serialize_bool(&mut self, v: bool)
        ensures
            final(self).written() == old(self).written() + encoding(Datum::Bool(v), old(self).byte_order()),
            final(self).byte_order() == old(self).byte_order(),
    {
        let b: u8 = if v { 1 } else { 0 };
        self.output.push(b);
        assert(self.output@ =~= old(self).written() + encoding(Datum::Bool(v), self.order));
    }

    /// Writes the UTF-8 encoding of `v`: one to four bytes.
    pub fn serialize_char(&mut self, v: char)
        ensures
            final(self).written() == old(self).written() + encoding(Datum::Char(v), old(self).byte_order()),
            final(self).byte_order() == old(self).byte_order(),
    {
        let bytes = char_utf8(v);
        self.append(bytes);
    }

    /// Writes the UTF-8 bytes of `v`, with no length and no terminator.
    pub fn serialize_str(&mut self, v: &str)
        ensures
            final(self).written() == old(self).written() + encoding(Datum::Str(v@), old(self).byte_order()),
            final(self).byte_order() == old(self).byte_order(),
    {
        self.append_slice(v.as_bytes());
    }

    /// Writes `v` as it is, with no length and no terminator.
    pub fn serialize_bytes(&mut self, v: &[u8])
        ensures
            final(self).written() == old(self).written() + encoding(Datum::Bytes(v@), old(self).byte_order()),
            final(self).byte_order() == old(self).byte_order(),
    {
        self.append_slice(v);
    }

    /// Writes `v`: a number in its width, a character or string as UTF-8, a
    /// compound value as its parts in order; nothing for a unit, a `None` or a
    /// variant's identity.
    pub fn serialize(&mut self, v: &Value)
        ensures
            final(self).written() == old(self).written() + encoding(v@, old(self).byte_order()),
            final(self).byte_order() == old(self).byte_order(),
        decreases v,
    {
        match v {
            Value::I8(x) => self.serialize_i8(*x),
            Value::U8(x) => self.serialize_u8(*x),
            Value::I16(x) => self.serialize_i16(*x),
            Value::U16(x) => self.serialize_u16(*x),
            Value::I32(x) => self.serialize_i32(*x),
            Value::U32(x) => self.serialize_u32(*x),
            Value::I64(x) => self.serialize_i64(*x),
            Value::U64(x) => self.serialize_u64(*x),
            Value::I128(x) => self.serialize_i128(*x),
            Value::U128(x) => self.serialize_u128(*x),
            Value::F32(x) => self.serialize_f32(*x),
            Value::F64(x) => self.serialize_f64(*x),
            Value::Bool(x) => self.serialize_bool(*x),
            Value::Char(c) => self.serialize_char(*c),
            Value::Str(s) => self.serialize_str(s.as_str()),
            Value::Bytes(b) => self.serialize_bytes(b.as_slice()),
            Value::Optional(x) => match x {
                Option::None => {
                    assert(old(self).written() + encoding(v@, self.order) =~= old(self).written());
                },
                Option::Some(y) => self.serialize(y),
            },
            Value::Unit | Value::UnitStruct | Value::UnitVariant => {
                assert(old(self).written() + encoding(v@, self.order) =~= old(self).written());
            },
            Value::Newtype(y) => self.serialize(y),
            Value::NewtypeVariant(y) => self.serialize(y),
            Value::Sequence(items) => self.serialize_all(items),
            Value::Tuple(items) => self.serialize_all(items),
            Value::TupleVariant(items) => self.serialize_all(items),
            Value::Struct(items) => self.serialize_all(items),
            Value::StructVariant(items) => self.serialize_all(items),
            Value::Mapping(entries) => self.serialize_entries(entries),
        }
    }

    /// Writes each of `items` in order.
    fn serialize_all(&mut self, items: &Vec<Value>)
        ensures
            final(self).written() == old(self).written() + encodings(models(*items), old(self).byte_order()),
            final(self).byte_order() == old(self).byte_order(),
        decreases items,
    {
        let ghost ms = models(*items);
        let mut i: usize = 0;
        while i < items.len()
            invariant
                0 <= i <= items@.len(),
                ms == models(*items),
                ms.len() == items@.len(),
                self.written() == old(self).written() + encodings(ms.take(i as int), old(self).byte_order()),
                self.byte_order() == old(self).byte_order(),
            decreases items.len() - i,
        {
            proof { lemma_encodings_take(ms, i as int, self.order); }
            self.serialize(&items[i]);
            i = i + 1;
        }
        assert(ms.take(i as int) =~= ms);
    }

    /// Writes each entry of `entries` in order, the key before the value.
    fn serialize_entries(&mut self, entries: &Vec<(Value, Value)>)
        ensures
            final(self).written() == old(self).written() + entry_encodings(entry_models(*entries), old(self).byte_order()),
            final(self).byte_order() == old(self).byte_order(),
        decreases entries,
    {
        let ghost ms = entry_models(*entries);
        let mut i: usize = 0;
        while i < entries.len()
            invariant
                0 <= i <= entries@.len(),
                ms == entry_models(*entries),
                ms.len() == entries@.len(),
                self.written() == old(self).written() + entry_encodings(ms.take(i as int), old(self).byte_order()),
                self.byte_order() == old(self).byte_order(),
            decreases entries.len() - i,
        {
            proof {
                lemma_entry_encodings_take(ms, i as int, self.order);
                assert(decreases_to!(*entries => entries[i as int]));
            }
            self.serialize(&entries[i].0);
            self.serialize(&entries[i].1);
            i = i + 1;
        }
        assert(ms.take(i as int) =~= ms);
    }
}

/// Encodes `value` into a new buffer, numbers in byte order `order`.
pub fn to_vec(value: &Value, order: ByteOrder) -> (r: Result<Vec<u8>, Error>)
    ensures
        r matches Ok(bytes) && bytes@ == encoding(value@, order),
{
    let mut ser = Serializer::new(order);
    ser.serialize(value);
    Ok(ser.into_inner())
}

/// Appends the encoding of `value` to `sink`, numbers in byte order `order`.
pub fn to_writer(sink: &mut Vec<u8>, value: &Value, order: ByteOrder) -> (r: Result<(), Error>)
    ensures
        r is Ok,
        final(sink)@ == old(sink)@ + encoding(value@, order),
{
    let mut ser = Serializer::new(order);
    ser.serialize(value);
    let mut bytes = ser.into_inner();
    sink.append(&mut bytes);
    Ok(())
}

} // verus!
