//! The decoder: reads a value of a requested shape from a byte source,
//! consuming exactly the bytes that each part of it takes.
use vstd::prelude::*;
use vstd::slice::slice_to_vec;
use vstd::utf8::*;

use crate::error::{kind_of, Error, ErrorKind};
use crate::order::{lemma_radix_values, lemma_value_bound, radix, uint_value, ByteOrder};
use crate::text::str_from_utf8;
use crate::value::{is_unsupported, model, models, number_of, width_of, Datum, Shape, Value};

verus! {

/// The number of bytes in the UTF-8 encoding of a character whose first byte
/// is `b`; zero where `b` cannot start one (a continuation byte, or a lead
/// byte that only starts overlong or out-of-range encodings).
pub open spec fn utf8_width(b: u8) -> nat {
    if b < 0x80 {
        1
    } else if 0xC2 <= b <= 0xDF {
        2
    } else if 0xE0 <= b <= 0xEF {
        3
    } else if 0xF0 <= b <= 0xF4 {
        4
    } else {
        0
    }
}

/// What decoding a character from `b` gives: the character and the number
/// of bytes it took, or the kind of error.
pub open spec fn char_decoding(b: Seq<u8>) -> Result<(Datum, nat), ErrorKind> {
    if b.len() == 0 {
        Err(ErrorKind::Io)
    } else if utf8_width(b[0]) == 1 {
        Ok((Datum::Char(b[0] as char), 1))
    } else if utf8_width(b[0]) == 0 {
        Err(ErrorKind::Encoding)
    } else if b.len() < utf8_width(b[0]) {
        Err(ErrorKind::Io)
    } else if valid_utf8(b.take(utf8_width(b[0]) as int)) {
        Ok((Datum::Char(decode_utf8(b.take(utf8_width(b[0]) as int))[0]), utf8_width(b[0])))
    } else {
        Err(ErrorKind::Encoding)
    }
}

/// What decoding a value of shape `s` from the front of `b` in byte order `o`
/// gives: the value and the number of bytes it took, or the kind of error.
pub open spec fn decoding(s: Shape, b: Seq<u8>, o: ByteOrder) -> Result<(Datum, nat), ErrorKind>
    decreases s, 0int, 0int,
{
    if width_of(s) > 0 {
        if b.len() < width_of(s) {
            Err(ErrorKind::Io)
        } else {
            Ok((number_of(s, uint_value(b.take(width_of(s) as int), o)), width_of(s)))
        }
    } else if is_unsupported(s) {
        Err(ErrorKind::Unsupported)
    } else {
        match s {
            Shape::Char => char_decoding(b),
            Shape::Str => if valid_utf8(b) {
                Ok((Datum::Str(decode_utf8(b)), b.len()))
            } else {
                Err(ErrorKind::Encoding)
            },
            Shape::Bytes => Ok((Datum::Bytes(b), b.len())),
            Shape::UnitStruct => Ok((Datum::UnitStruct, 0)),
            Shape::Newtype(inner) => match decoding(*inner, b, o) {
                Ok((d, n)) => Ok((Datum::Newtype(Box::new(d)), n)),
                Err(k) => Err(k),
            },
            Shape::Sequence(elem) => match elements_decoding(*elem, b, o) {
                Ok((ds, n)) => Ok((Datum::Sequence(ds), n)),
                Err(k) => Err(k),
            },
            Shape::Tuple(fields) => match fields_decoding(fields@, 0, b, o) {
                Ok((ds, n)) => Ok((Datum::Tuple(ds), n)),
                Err(k) => Err(k),
            },
            Shape::Struct(fields) => match fields_decoding(fields@, 0, b, o) {
                Ok((ds, n)) => Ok((Datum::Struct(ds), n)),
                Err(k) => Err(k),
            },
            _ => Ok((Datum::Unit, 0)),
        }
    }
}

/// `ds` and `n` put in front of what `r` decoded.
pub open spec fn prepend(ds: Seq<Datum>, n: nat, r: Result<(Seq<Datum>, nat), ErrorKind>) -> Result<
    (Seq<Datum>, nat),
    ErrorKind,
> {
    match r {
        Ok((es, m)) => Ok((ds + es, n + m)),
        Err(k) => Err(k),
    }
}

/// What decoding elements of shape `e` from `b` until it is exhausted gives.
/// An element that takes no bytes would never exhaust it, and is refused.
pub open spec fn elements_decoding(e: Shape, b: Seq<u8>, o: ByteOrder) -> Result<
    (Seq<Datum>, nat),
    ErrorKind,
>
    decreases e, 1int, b.len(),
{
    if b.len() == 0 {
        Ok((Seq::empty(), 0))
    } else {
        match decoding(e, b, o) {
            Err(k) => Err(k),
            Ok((d, n)) => if n == 0 || n > b.len() {
                Err(ErrorKind::Unsupported)
            } else {
                prepend(seq![d], n, elements_decoding(e, b.skip(n as int), o))
            },
        }
    }
}

/// What decoding the fields `fs[i..]` from the front of `b`, one after
/// another, gives.
pub open spec fn fields_decoding(fs: Seq<Shape>, i: int, b: Seq<u8>, o: ByteOrder) -> Result<
    (Seq<Datum>, nat),
    ErrorKind,
>
    decreases fs, 1int, fs.len() - i,
{
    if i < 0 || i >= fs.len() {
        Ok((Seq::empty(), 0))
    } else {
        match decoding(fs[i], b, o) {
            Err(k) => Err(k),
            Ok((d, n)) => prepend(seq![d], n, fields_decoding(fs, i + 1, b.skip(n as int), o)),
        }
    }
}

/// The outcome of an operation that returned `r`, with a successful result
/// seen through `f`.
pub open spec fn reported<T>(r: Result<T, Error>, f: spec_fn(T) -> Datum) -> Result<Datum, ErrorKind> {
    match r {
        Ok(x) => Ok(f(x)),
        Err(e) => Err(kind_of(e)),
    }
}

/// Reading shape `s` in byte order `o` from `before`, leaving `after`, gave
/// `r`, as [`decoding`] says: on success the bytes the value took are gone.
pub open spec fn decodes(
    before: Seq<u8>,
    after: Seq<u8>,
    o: ByteOrder,
    s: Shape,
    r: Result<Datum, ErrorKind>,
) -> bool {
    &&& after.len() <= before.len()
    &&& after == before.skip(before.len() - after.len())
    &&& match decoding(s, before, o) {
        Ok((d, n)) => r == Ok::<Datum, ErrorKind>(d) && after.len() + n == before.len(),
        Err(k) => r == Err::<Datum, ErrorKind>(k),
    }
}

/// The outcome of a read of several values that returned `r`, leaving
/// `after` of `before`, against what `expected` says it should be.
pub open spec fn decodes_all(
    before: Seq<u8>,
    after: Seq<u8>,
    expected: Result<(Seq<Datum>, nat), ErrorKind>,
    r: Result<Vec<Value>, Error>,
) -> bool {
    &&& after.len() <= before.len()
    &&& after == before.skip(before.len() - after.len())
    &&& match expected {
        Ok((ds, n)) => r matches Ok(vs) && models(vs) == ds && after.len() + n == before.len(),
        Err(k) => r matches Err(e) && kind_of(e) == k,
    }
}

proof fn lemma_skip_none(b: Seq<u8>)
    ensures
        b.skip(0) == b,
{
    assert(b.skip(0) =~= b);
}

proof fn lemma_skip_skip(b: Seq<u8>, i: int, j: int)
    requires
        0 <= i,
        0 <= j,
        i + j <= b.len(),
    ensures
        b.skip(i).skip(j) == b.skip(i + j),
{
    assert(b.skip(i).skip(j) =~= b.skip(i + j));
}

proof fn lemma_prepend_push(ds: Seq<Datum>, n: nat, d: Datum, m: nat, r: Result<(Seq<Datum>, nat), ErrorKind>)
    ensures
        prepend(ds, n, prepend(seq![d], m, r)) == prepend(ds.push(d), n + m, r),
{
    if let Ok((es, k)) = r {
        assert(ds + (seq![d] + es) =~= ds.push(d) + es);
    }
}

proof fn lemma_models_push(items: Vec<Value>, v: Value, pushed: Vec<Value>)
    requires
        pushed@ == items@.push(v),
    ensures
        models(pushed) == models(items).push(model(v)),
{
    assert(models(pushed) =~= models(items).push(model(v)));
}

/// Returns the number of bytes in the UTF-8 encoding of a character that starts
/// with byte `b`, or zero where no character starts with it.
fn utf8_char_width(b: u8) -> (w: usize)
    ensures
        w == utf8_width(b),
{
    if b < 0x80 {
        1
    } else if 0xC2 <= b && b <= 0xDF {
        2
    } else if 0xE0 <= b && b <= 0xEF {
        3
    } else if 0xF0 <= b && b <= 0xF4 {
        4
    } else {
        0
    }
}

/// A decoder that reads values from the front of a byte slice.
pub struct Deserializer<'a> {
    input: &'a [u8],
    order: ByteOrder,
}

impl<'a> Deserializer<'a> {
    /// The bytes not read yet.
    pub closed spec fn remaining(&self) -> Seq<u8> {
        self.input@
    }

    /// The byte order used for multi-byte numbers.
    pub closed spec fn byte_order(&self) -> ByteOrder {
        self.order
    }

    /// A decoder that reads `input` from its start, numbers in byte order `order`.
    pub fn new(input: &'a [u8], order: ByteOrder) -> (r: Self)
        ensures
            r.remaining() == input@,
            r.byte_order() == order,
    {
        Deserializer { input, order }
    }

    /// Whether every byte has been read.
    pub fn is_exhausted(&self) -> (r: bool)
        ensures
            r == (self.remaining().len() == 0),
    {
        self.input.len() == 0
    }

    /// The number of bytes not read yet.
    pub fn remaining_len(&self) -> (r: usize)
        ensures
            r == self.remaining().len(),
    {
        self.input.len()
    }

    /// Takes the next `n` bytes, or fails with an I/O error, taking nothing,
    /// where fewer remain.
    fn take(&mut self, n: usize) -> (r: Result<&'a [u8], Error>)
        ensures
            final(self).byte_order() == old(self).byte_order(),
            match r {
                Ok(s) => {
                    &&& n <= old(self).remaining().len()
                    &&& s@ == old(self).remaining().take(n as int)
                    &&& final(self).remaining() == old(self).remaining().skip(n as int)
                },
                Err(e) => {
                    &&& n > old(self).remaining().len()
                    &&& kind_of(e) == ErrorKind::Io
                    &&& final(self).remaining() == old(self).remaining()
                },
            },
    {
        if n > self.input.len() {
            return Err(Error::unexpected_eof());
        }
        let (head, tail) = self.input.split_at(n);
        self.input = tail;
        Ok(head)
    }

    /// Reads the next `width` bytes as an unsigned number in the decoder's
    /// byte order.
    fn read_uint(&mut self, width: usize) -> (r: Result<u128, Error>)
        requires
            1 <= width <= 16,
        ensures
            final(self).byte_order() == old(self).byte_order(),
            match r {
                Ok(n) => {
                    &&& width <= old(self).remaining().len()
                    &&& n == uint_value(old(self).remaining().take(width as int), old(self).byte_order())
                    &&& n < radix(width as nat)
                    &&& final(self).remaining() == old(self).remaining().skip(width as int)
                },
                Err(e) => {
                    &&& width > old(self).remaining().len()
                    &&& kind_of(e) == ErrorKind::Io
                    &&& final(self).remaining() == old(self).remaining()
                },
            },
    {
        let bytes = match self.take(width) {
            Ok(bytes) => bytes,
            Err(e) => return Err(e),
        };
        let n = self.order.read_uint(bytes);
        proof {
            lemma_value_bound(bytes@);
        }
        Ok(n)
    }

    /// Reads one byte as an unsigned number.
    pub fn deserialize_u8(&mut self) -> (r: Result<u8, Error>)
        ensures
            decodes(
                old(self).remaining(),
                final(self).remaining(),
                old(self).byte_order(),
                Shape::U8,
                reported(r, |x: u8| Datum::U8(x)),
            ),
            final(self).byte_order() == old(self).byte_order(),
    {
        proof {
            lemma_radix_values();
            lemma_skip_none(self.input@);
        }
        let n = match self.read_uint(1) {
            Ok(n) => n,
            Err(e) => return Err(e),
        };
        Ok(n as u8)
    }

    /// Reads one byte as a number in two's complement.
    pub fn deserialize_i8(&mut self) -> (r: Result<i8, Error>)
        ensures
            decodes(
                old(self).remaining(),
                final(self).remaining(),
                old(self).byte_order(),
                Shape::I8,
                reported(r, |x: i8| Datum::I8(x)),
            ),
            final(self).byte_order() == old(self).byte_order(),
    {
        proof {
            lemma_radix_values();
            lemma_skip_none(self.input@);
        }
        let n = match self.read_uint(1) {
            Ok(n) => n,
            Err(e) => return Err(e),
        };
        let v: i8 = if n >= 0x80 {
            (n as i16 - 0x100) as i8
        } else {
            n as i8
        };
        Ok(v)
    }

    /// Reads 2 bytes as an unsigned number in the decoder's byte order.
    pub fn deserialize_u16(&mut self) -> (r: Result<u16, Error>)
        ensures
            decodes(
                old(self).remaining(),
                final(self).remaining(),
                old(self).byte_order(),
                Shape::U16,
                reported(r, |x: u16| Datum::U16(x)),
            ),
            final(self).byte_order() == old(self).byte_order(),
    {
        proof {
            lemma_radix_values();
            lemma_skip_none(self.input@);
        }
        let n = match self.read_uint(2) {
            Ok(n) => n,
            Err(e) => return Err(e),
        };
        Ok(n as u16)
    }

    /// Reads 2 bytes as a number in two's complement and the decoder's byte order.
    pub fn deserialize_i16(&mut self) -> (r: Result<i16, Error>)
        ensures
            decodes(
                old(self).remaining(),
                final(self).remaining(),
                old(self).byte_order(),
                Shape::I16,
                reported(r, |x: i16| Datum::I16(x)),
            ),
            final(self).byte_order() == old(self).byte_order(),
    {
        proof {
            lemma_radix_values();
            lemma_skip_none(self.input@);
        }
        let n = match self.read_uint(2) {
            Ok(n) => n,
            Err(e) => return Err(e),
        };
        let v: i16 = if n >= 0x8000 {
            (n as i32 - 0x1_0000) as i16
        } else {
            n as i16
        };
        Ok(v)
    }

    /// Reads 4 bytes as an unsigned number in the decoder's byte order.
    pub fn deserialize_u32(&mut self) -> (r: Result<u32, Error>)
        ensures
            decodes(
                old(self).remaining(),
                final(self).remaining(),
                old(self).byte_order(),
                Shape::U32,
                reported(r, |x: u32| Datum::U32(x)),
            ),
            final(self).byte_order() == old(self).byte_order(),
    {
        proof {
            lemma_radix_values();
            lemma_skip_none(self.input@);
        }
        let n = match self.read_uint(4) {
            Ok(n) => n,
            Err(e) => return Err(e),
        };
        Ok(n as u32)
    }

    /// Reads 4 bytes as a number in two's complement and the decoder's byte order.
    pub fn deserialize_i32(&mut self) -> (r: Result<i32, Error>)
        ensures
            decodes(
                old(self).remaining(),
                final(self).remaining(),
                old(self).byte_order(),
                Shape::I32,
                reported(r, |x: i32| Datum::I32(x)),
            ),
            final(self).byte_order() == old(self).byte_order(),
    {
        proof {
            lemma_radix_values();
            lemma_skip_none(self.input@);
        }
        let n = match self.read_uint(4) {
            Ok(n) => n,
            Err(e) => return Err(e),
        };
        let v: i32 = if n >= 0x8000_0000 {
            (n as i64 - 0x1_0000_0000) as i32
        } else {
            n as i32
        };
        Ok(v)
    }

    /// Reads 8 bytes as an unsigned number in the decoder's byte order.
    pub fn deserialize_u64(&mut self) -> (r: Result<u64, Error>)
        ensures
            decodes(
                old(self).remaining(),
                final(self).remaining(),
                old(self).byte_order(),
                Shape::U64,
                reported(r, |x: u64| Datum::U64(x)),
            ),
            final(self).byte_order() == old(self).byte_order(),
    {
        proof {
            lemma_radix_values();
            lemma_skip_none(self.input@);
        }
        let n = match self.read_uint(8) {
            Ok(n) => n,
            Err(e) => return Err(e),
        };
        Ok(n as u64)
    }

    /// Reads 8 bytes as a number in two's complement and the decoder's byte order.
    pub fn deserialize_i64(&mut self) -> (r: Result<i64, Error>)
        ensures
            decodes(
                old(self).remaining(),
                final(self).remaining(),
                old(self).byte_order(),
                Shape::I64,
                reported(r, |x: i64| Datum::I64(x)),
            ),
            final(self).byte_order() == old(self).byte_order(),
    {
        proof {
            lemma_radix_values();
            lemma_skip_none(self.input@);
        }
        let n = match self.read_uint(8) {
            Ok(n) => n,
            Err(e) => return Err(e),
        };
        let v: i64 = if n >= 0x8000_0000_0000_0000 {
            (n as i128 - 0x1_0000_0000_0000_0000) as i64
        } else {
            n as i64
        };
        Ok(v)
    }

    /// Reads 16 bytes as an unsigned number in the decoder's byte order.
    pub fn deserialize_u128(&mut self) -> (r: Result<u128, Error>)
        ensures
            decodes(
                old(self).remaining(),
                final(self).remaining(),
                old(self).byte_order(),
                Shape::U128,
                reported(r, |x: u128| Datum::U128(x)),
            ),
            final(self).byte_order() == old(self).byte_order(),
    {
        proof {
            lemma_radix_values();
            lemma_skip_none(self.input@);
        }
        let n = match self.read_uint(16) {
            Ok(n) => n,
            Err(e) => return Err(e),
        };
        Ok(n as u128)
    }

    /// Reads 16 bytes as a number in two's complement and the decoder's byte order.
    pub fn deserialize_i128(&mut self) -> (r: Result<i128, Error>)
        ensures
            decodes(
                old(self).remaining(),
                final(self).remaining(),
                old(self).byte_order(),
                Shape::I128,
                reported(r, |x: i128| Datum::I128(x)),
            ),
            final(self).byte_order() == old(self).byte_order(),
    {
        proof {
            lemma_radix_values();
            lemma_skip_none(self.input@);
        }
        let n = match self.read_uint(16) {
            Ok(n) => n,
            Err(e) => return Err(e),
        };
        let v: i128 = if n >= 0x8000_0000_0000_0000_0000_0000_0000_0000 {
            (n - 0x8000_0000_0000_0000_0000_0000_0000_0000) as i128 - i128::MAX - 1
        } else {
            n as i128
        };
        Ok(v)
    }

    /// Reads 4 bytes in the decoder's byte order as the bit pattern of a
    /// single-precision float.
    pub fn deserialize_f32(&mut self) -> (r: Result<u32, Error>)
        ensures
            decodes(
                old(self).remaining(),
                final(self).remaining(),
                old(self).byte_order(),
                Shape::F32,
                reported(r, |x: u32| Datum::F32(x)),
            ),
            final(self).byte_order() == old(self).byte_order(),
    {
        proof {
            lemma_radix_values();
            lemma_skip_none(self.input@);
        }
        let n = match self.read_uint(4) {
            Ok(n) => n,
            Err(e) => return Err(e),
        };
        Ok(n as u32)
    }

    /// Reads 8 bytes in the decoder's byte order as the bit pattern of a
    /// double-precision float.
    pub fn deserialize_f64(&mut self) -> (r: Result<u64, Error>)
        ensures
            decodes(
                old(self).remaining(),
                final(self).remaining(),
                old(self).byte_order(),
                Shape::F64,
                reported(r, |x: u64| Datum::F64(x)),
            ),
            final(self).byte_order() == old(self).byte_order(),
    {
        proof {
            lemma_radix_values();
            lemma_skip_none(self.input@);
        }
        let n = match self.read_uint(8) {
            Ok(n) => n,
            Err(e) => return Err(e),
        };
        Ok(n as u64)
    }

    /// Reads every remaining byte.
    pub fn read_to_end(&mut self) -> (r: Result<Vec<u8>, Error>)
        ensures
            r matches Ok(v) && v@ == old(self).remaining(),
            final(self).remaining().len() == 0,
            final(self).byte_order() == old(self).byte_order(),
    {
        let n = self.input.len();
        let (all, rest) = self.input.split_at(n);
        self.input = rest;
        Ok(slice_to_vec(all))
    }

    /// Reads one character in UTF-8: its first byte gives the number of bytes
    /// that encode it, and those bytes must be valid UTF-8.
    pub fn read_char(&mut self) -> (r: Result<char, Error>)
        ensures
            decodes(
                old(self).remaining(),
                final(self).remaining(),
                old(self).byte_order(),
                Shape::Char,
                reported(r, |c: char| Datum::Char(c)),
            ),
            final(self).byte_order() == old(self).byte_order(),
    {
        proof {
            lemma_skip_none(self.input@);
        }
        if self.input.len() == 0 {
            return Err(Error::unexpected_eof());
        }
        let first = self.input[0];
        let width = utf8_char_width(first);
        let n: usize = if width == 0 { 1 } else { width };
        let bytes = match self.take(n) {
            Ok(bytes) => bytes,
            Err(e) => return Err(e),
        };
        if width == 1 {
            return Ok(first as char);
        }
        match str_from_utf8(bytes) {
            Err(e) => Err(Error::Encoding(e)),
            Ok(s) => Ok(s.get_char(0)),
        }
    }

    /// Reads every remaining byte as a UTF-8 string.
    pub fn deserialize_string(&mut self) -> (r: Result<String, Error>)
        ensures
            decodes(
                old(self).remaining(),
                final(self).remaining(),
                old(self).byte_order(),
                Shape::Str,
                reported(r, |s: String| Datum::Str(s@)),
            ),
            final(self).byte_order() == old(self).byte_order(),
    {
        proof {
            lemma_skip_none(self.input@);
        }
        match str_from_utf8(self.input) {
            Err(e) => Err(Error::Encoding(e)),
            Ok(s) => {
                let owned = s.to_owned();
                let n = self.input.len();
                let (_, rest) = self.input.split_at(n);
                self.input = rest;
                Ok(owned)
            },
        }
    }

    /// Reads every remaining byte.
    pub fn deserialize_byte_buf(&mut self) -> (r: Result<Vec<u8>, Error>)
        ensures
            decodes(
                old(self).remaining(),
                final(self).remaining(),
                old(self).byte_order(),
                Shape::Bytes,
                reported(r, |b: Vec<u8>| Datum::Bytes(b@)),
            ),
            final(self).byte_order() == old(self).byte_order(),
    {
        let ghost before = self.input@;
        let r = self.read_to_end();
        assert(before.skip(before.len() as int) =~= self.input@);
        r
    }

    /// Reads a value of shape `shape`: a number in its width, a character
    /// or string as UTF-8, a sequence until the bytes run out, a tuple or
    /// struct as its fields in order; nothing for a unit. Booleans, optional
    /// values, enumerations, maps and self-describing shapes are refused
    /// without reading anything.
    pub fn deserialize(&mut self, shape: &Shape) -> (r: Result<Value, Error>)
        ensures
            decodes(
                old(self).remaining(),
                final(self).remaining(),
                old(self).byte_order(),
                *shape,
                reported(r, |v: Value| model(v)),
            ),
            final(self).byte_order() == old(self).byte_order(),
            is_unsupported(*shape) ==> final(self).remaining() == old(self).remaining(),
        decreases shape, 0int,
    {
        proof {
            lemma_skip_none(self.input@);
        }
        match shape {
            Shape::I8 => match self.deserialize_i8() {
                Ok(x) => Ok(Value::I8(x)),
                Err(e) => Err(e),
            },
            Shape::U8 => match self.deserialize_u8() {
                Ok(x) => Ok(Value::U8(x)),
                Err(e) => Err(e),
            },
            Shape::I16 => match self.deserialize_i16() {
                Ok(x) => Ok(Value::I16(x)),
                Err(e) => Err(e),
            },
            Shape::U16 => match self.deserialize_u16() {
                Ok(x) => Ok(Value::U16(x)),
                Err(e) => Err(e),
            },
            Shape::I32 => match self.deserialize_i32() {
                Ok(x) => Ok(Value::I32(x)),
                Err(e) => Err(e),
            },
            Shape::U32 => match self.deserialize_u32() {
                Ok(x) => Ok(Value::U32(x)),
                Err(e) => Err(e),
            },
            Shape::I64 => match self.deserialize_i64() {
                Ok(x) => Ok(Value::I64(x)),
                Err(e) => Err(e),
            },
            Shape::U64 => match self.deserialize_u64() {
                Ok(x) => Ok(Value::U64(x)),
                Err(e) => Err(e),
            },
            Shape::I128 => match self.deserialize_i128() {
                Ok(x) => Ok(Value::I128(x)),
                Err(e) => Err(e),
            },
            Shape::U128 => match self.deserialize_u128() {
                Ok(x) => Ok(Value::U128(x)),
                Err(e) => Err(e),
            },
            Shape::F32 => match self.deserialize_f32() {
                Ok(x) => Ok(Value::F32(x)),
                Err(e) => Err(e),
            },
            Shape::F64 => match self.deserialize_f64() {
                Ok(x) => Ok(Value::F64(x)),
                Err(e) => Err(e),
            },
            Shape::Char => match self.read_char() {
                Ok(c) => Ok(Value::Char(c)),
                Err(e) => Err(e),
            },
            Shape::Str => match self.deserialize_string() {
                Ok(s) => Ok(Value::Str(s)),
                Err(e) => Err(e),
            },
            Shape::Bytes => match self.deserialize_byte_buf() {
                Ok(b) => Ok(Value::Bytes(b)),
                Err(e) => Err(e),
            },
            Shape::Unit => Ok(Value::Unit),
            Shape::UnitStruct => Ok(Value::UnitStruct),
            Shape::Newtype(inner) => match self.deserialize(inner) {
                Ok(v) => Ok(Value::Newtype(Box::new(v))),
                Err(e) => Err(e),
            },
            Shape::Sequence(elem) => match self.deserialize_elements(elem) {
                Ok(vs) => Ok(Value::Sequence(vs)),
                Err(e) => Err(e),
            },
            Shape::Tuple(fields) => match self.deserialize_fields(fields) {
                Ok(vs) => Ok(Value::Tuple(vs)),
                Err(e) => Err(e),
            },
            Shape::Struct(fields) => match self.deserialize_fields(fields) {
                Ok(vs) => Ok(Value::Struct(vs)),
                Err(e) => Err(e),
            },
            Shape::Bool => Err(Error::Unsupported("`deserialize_bool` is not supported")),
            Shape::Optional => Err(Error::Unsupported("`deserialize_option` is not supported")),
            Shape::Enum => Err(Error::Unsupported("`deserialize_enum` is not supported")),
            Shape::Mapping => Err(Error::Unsupported("`deserialize_map` is not supported")),
            Shape::Any => Err(Error::Unsupported("`deserialize_any` is not supported")),
            Shape::Identifier => Err(Error::Unsupported("`deserialize_identifier` is not supported")),
            Shape::IgnoredAny => Err(Error::Unsupported("`deserialize_ignored_any` is not supported")),
        }
    }

    /// Reads elements of shape `elem` until no byte remains.
    fn deserialize_elements(&mut self, elem: &Shape) -> (r: Result<Vec<Value>, Error>)
        ensures
            decodes_all(
                old(self).remaining(),
                final(self).remaining(),
                elements_decoding(*elem, old(self).remaining(), old(self).byte_order()),
                r,
            ),
            final(self).byte_order() == old(self).byte_order(),
        decreases elem, 1int,
    {
        let ghost b0 = self.input@;
        let ghost o = self.order;
        proof {
            lemma_skip_none(b0);
        }
        let mut items: Vec<Value> = Vec::new();
        while self.input.len() > 0
            invariant
                self.order == o,
                o == old(self).order,
                b0 == old(self).input@,
                self.input@.len() <= b0.len(),
                self.input@ == b0.skip(b0.len() - self.input@.len()),
                elements_decoding(*elem, b0, o) == prepend(
                    models(items),
                    (b0.len() - self.input@.len()) as nat,
                    elements_decoding(*elem, self.input@, o),
                ),
            decreases self.input@.len(),
        {
            let ghost cur = self.input@;
            let before = self.input.len();
            match self.deserialize(elem) {
                Err(e) => {
                    proof {
                        lemma_skip_skip(b0, b0.len() - cur.len(), cur.len() - self.input@.len());
                    }
                    return Err(e);
                },
                Ok(v) => {
                    if self.input.len() == before {
                        proof {
                            lemma_skip_none(cur);
                        }
                        return Err(
                            Error::Unsupported(
                                "`deserialize_seq` of elements that take no bytes is not supported",
                            ),
                        );
                    }
                    let ghost items0 = items;
                    items.push(v);
                    proof {
                        let n = (cur.len() - self.input@.len()) as nat;
                        lemma_models_push(items0, v, items);
                        lemma_prepend_push(
                            models(items0),
                            (b0.len() - cur.len()) as nat,
                            model(v),
                            n,
                            elements_decoding(*elem, self.input@, o),
                        );
                        lemma_skip_skip(b0, b0.len() - cur.len(), n as int);
                    }
                },
            }
        }
        assert(models(items) + Seq::<Datum>::empty() =~= models(items));
        Ok(items)
    }

    /// Reads one value of each shape in `fields`, in order.
    fn deserialize_fields(&mut self, fields: &Vec<Shape>) -> (r: Result<Vec<Value>, Error>)
        ensures
            decodes_all(
                old(self).remaining(),
                final(self).remaining(),
                fields_decoding(fields@, 0, old(self).remaining(), old(self).byte_order()),
                r,
            ),
            final(self).byte_order() == old(self).byte_order(),
        decreases fields, 0int,
    {
        let ghost b0 = self.input@;
        let ghost o = self.order;
        proof {
            lemma_skip_none(b0);
        }
        let mut items: Vec<Value> = Vec::new();
        let mut i: usize = 0;
        while i < fields.len()
            invariant
                0 <= i <= fields@.len(),
                self.order == o,
                o == old(self).order,
                b0 == old(self).input@,
                self.input@.len() <= b0.len(),
                self.input@ == b0.skip(b0.len() - self.input@.len()),
                fields_decoding(fields@, 0, b0, o) == prepend(
                    models(items),
                    (b0.len() - self.input@.len()) as nat,
                    fields_decoding(fields@, i as int, self.input@, o),
                ),
            decreases fields.len() - i,
        {
            let ghost cur = self.input@;
            match self.deserialize(&fields[i]) {
                Err(e) => {
                    proof {
                        lemma_skip_skip(b0, b0.len() - cur.len(), cur.len() - self.input@.len());
                    }
                    return Err(e);
                },
                Ok(v) => {
                    let ghost items0 = items;
                    items.push(v);
                    proof {
                        let n = (cur.len() - self.input@.len()) as nat;
                        lemma_models_push(items0, v, items);
                        lemma_prepend_push(
                            models(items0),
                            (b0.len() - cur.len()) as nat,
                            model(v),
                            n,
                            fields_decoding(fields@, i + 1, self.input@, o),
                        );
                        lemma_skip_skip(b0, b0.len() - cur.len(), n as int);
                    }
                    i = i + 1;
                },
            }
        }
        assert(models(items) + Seq::<Datum>::empty() =~= models(items));
        Ok(items)
    }
}

/// Decodes a value of shape `shape` from the front of `input`, numbers in byte
/// order `order`. Bytes left over after the value are ignored.
pub fn from_bytes(input: &[u8], shape: &Shape, order: ByteOrder) -> (r: Result<Value, Error>)
    ensures
        match decoding(*shape, input@, order) {
            Ok((d, _)) => r matches Ok(v) && v@ == d,
            Err(k) => r matches Err(e) && kind_of(e) == k,
        },
{
    let mut de = Deserializer::new(input, order);
    de.deserialize(shape)
}

} // verus!
