//! Properties that relate the encoder and the decoder.
use vstd::prelude::*;
use vstd::utf8::*;

use crate::de::{char_decoding, decoding, elements_decoding, fields_decoding, utf8_width};
use crate::error::ErrorKind;
use crate::order::{lemma_radix_values, lemma_signed_value_of_bytes, lemma_value_of_bytes, ByteOrder};
use crate::ser::{encoding, encodings, lemma_encodings_first};
use crate::value::{is_unsupported, width_of, Datum, Shape};

verus! {

/// Whether `d` is a value of shape `s` that the decoder gets back from its
/// encoding. A string, a byte buffer or a sequence reads to the end of the
/// input, so it must come `last`; and each element of a sequence must take at
/// least one byte, or the decoder could not tell where the next one starts.
pub open spec fn fits(d: Datum, s: Shape, last: bool, o: ByteOrder) -> bool
    decreases d,
{
    match (d, s) {
        (Datum::I8(_), Shape::I8) => true,
        (Datum::U8(_), Shape::U8) => true,
        (Datum::I16(_), Shape::I16) => true,
        (Datum::U16(_), Shape::U16) => true,
        (Datum::I32(_), Shape::I32) => true,
        (Datum::U32(_), Shape::U32) => true,
        (Datum::I64(_), Shape::I64) => true,
        (Datum::U64(_), Shape::U64) => true,
        (Datum::I128(_), Shape::I128) => true,
        (Datum::U128(_), Shape::U128) => true,
        (Datum::F32(_), Shape::F32) => true,
        (Datum::F64(_), Shape::F64) => true,
        (Datum::Char(_), Shape::Char) => true,
        (Datum::Str(_), Shape::Str) => last,
        (Datum::Bytes(_), Shape::Bytes) => last,
        (Datum::Unit, Shape::Unit) => true,
        (Datum::UnitStruct, Shape::UnitStruct) => true,
        (Datum::Newtype(x), Shape::Newtype(t)) => fits(*x, *t, last, o),
        (Datum::Sequence(ds), Shape::Sequence(e)) => {
            &&& last
            &&& forall|i: int|
                0 <= i < ds.len() ==> fits(ds[i], *e, i == ds.len() - 1, o) && encoding(
                    ds[i],
                    o,
                ).len() > 0
        },
        (Datum::Tuple(ds), Shape::Tuple(fs)) => {
            &&& ds.len() == fs@.len()
            &&& forall|i: int|
                0 <= i < ds.len() ==> fits(ds[i], fs@[i], last && i == ds.len() - 1, o)
        },
        (Datum::Struct(ds), Shape::Struct(fs)) => {
            &&& ds.len() == fs@.len()
            &&& forall|i: int|
                0 <= i < ds.len() ==> fits(ds[i], fs@[i], last && i == ds.len() - 1, o)
        },
        _ => false,
    }
}

/// A character's UTF-8 encoding starts with a byte that announces its length.
proof fn lemma_char_width(c: char)
    ensures
        encode_utf8(seq![c]).len() >= 1,
        utf8_width(encode_utf8(seq![c])[0]) == encode_utf8(seq![c]).len(),
{
    let s = c as u32;
    char_is_scalar(c);
    assert(encode_utf8(seq![c]) =~= encode_scalar(s)) by {
        assert(seq![c].drop_first() =~= Seq::<char>::empty());
        assert(encode_utf8(Seq::<char>::empty()) =~= Seq::<u8>::empty());
        assert(seq![c][0] == c);
    }
    if has_width_1_encoding(s) {
        assert(s <= 0x7F ==> (s & 0x7F) as u8 <= 0x7F) by (bit_vector);
    } else if has_width_2_encoding(s) {
        assert(0x80 <= s <= 0x7FF ==> 0xC2 <= (0xC0 | ((s >> 6) & 0x1F) as u8) <= 0xDF)
            by (bit_vector);
    } else if has_width_3_encoding(s) {
        assert(0xE0 <= (0xE0 | ((s >> 12) & 0x0F) as u8) <= 0xEF) by (bit_vector);
    } else {
        assert(0x10000 <= s <= 0x10FFFF ==> 0xF0 <= (0xF0 | ((s >> 18) & 0x7) as u8) <= 0xF4)
            by (bit_vector);
    }
}

/// A character followed by anything decodes back to the character.
proof fn lemma_char_round_trip(c: char, rest: Seq<u8>)
    ensures
        char_decoding(encode_utf8(seq![c]) + rest) == Ok::<(Datum, nat), ErrorKind>(
            (Datum::Char(c), encode_utf8(seq![c]).len()),
        ),
{
    let e = encode_utf8(seq![c]);
    let b = e + rest;
    lemma_char_width(c);
    encode_utf8_valid_utf8(seq![c]);
    encode_utf8_decode_utf8(seq![c]);
    assert(b.take(e.len() as int) =~= e);
    if e.len() == 1 {
        let s = c as u32;
        char_is_scalar(c);
        assert(seq![c].drop_first() =~= Seq::<char>::empty());
        assert(s <= 0x7F ==> (s & 0x7F) == s) by (bit_vector);
        char_u32_cast(c, s);
    }
}

/// The round trip for a number of `w` bytes.
proof fn lemma_number_round_trip(d: Datum, s: Shape, rest: Seq<u8>, o: ByteOrder)
    requires
        fits(d, s, false, o),
        width_of(s) > 0,
    ensures
        encoding(d, o).len() == width_of(s),
        decoding(s, encoding(d, o) + rest, o) == Ok::<(Datum, nat), ErrorKind>(
            (d, encoding(d, o).len()),
        ),
{
    lemma_radix_values();
    let w = width_of(s);
    match d {
        Datum::I8(x) => lemma_signed_value_of_bytes(x as int, w, o),
        Datum::U8(x) => lemma_value_of_bytes(x as nat, w, o),
        Datum::I16(x) => lemma_signed_value_of_bytes(x as int, w, o),
        Datum::U16(x) => lemma_value_of_bytes(x as nat, w, o),
        Datum::I32(x) => lemma_signed_value_of_bytes(x as int, w, o),
        Datum::U32(x) => lemma_value_of_bytes(x as nat, w, o),
        Datum::I64(x) => lemma_signed_value_of_bytes(x as int, w, o),
        Datum::U64(x) => lemma_value_of_bytes(x as nat, w, o),
        Datum::I128(x) => lemma_signed_value_of_bytes(x as int, w, o),
        Datum::U128(x) => lemma_value_of_bytes(x as nat, w, o),
        Datum::F32(x) => lemma_value_of_bytes(x as nat, w, o),
        Datum::F64(x) => lemma_value_of_bytes(x as nat, w, o),
        _ => {},
    }
    let e = encoding(d, o);
    assert((e + rest).take(w as int) =~= e);
}

/// Decoding shape `s` from the encoding of a value `d` that fits it, followed
/// by anything where `d` need not come last, gives `d` back and takes exactly
/// its encoding.
pub proof fn lemma_round_trip(d: Datum, s: Shape, last: bool, rest: Seq<u8>, o: ByteOrder)
    requires
        fits(d, s, last, o),
        last ==> rest.len() == 0,
    ensures
        decoding(s, encoding(d, o) + rest, o) == Ok::<(Datum, nat), ErrorKind>(
            (d, encoding(d, o).len()),
        ),
    decreases d, 0int, 0int,
{
    let e = encoding(d, o);
    let b = e + rest;
    if width_of(s) > 0 {
        lemma_number_round_trip(d, s, rest, o);
    } else {
        match (d, s) {
            (Datum::Char(c), Shape::Char) => lemma_char_round_trip(c, rest),
            (Datum::Str(t), Shape::Str) => {
                assert(b =~= e);
                encode_utf8_valid_utf8(t);
                encode_utf8_decode_utf8(t);
            },
            (Datum::Bytes(_), Shape::Bytes) => {
                assert(b =~= e);
            },
            (Datum::Unit, Shape::Unit) => {},
            (Datum::UnitStruct, Shape::UnitStruct) => {},
            (Datum::Newtype(x), Shape::Newtype(t)) => {
                lemma_round_trip(*x, *t, last, rest, o);
            },
            (Datum::Sequence(ds), Shape::Sequence(el)) => {
                assert(b =~= e);
                lemma_elements_round_trip(ds, *el, o);
            },
            (Datum::Tuple(ds), Shape::Tuple(fs)) => {
                assert(ds.skip(0) =~= ds);
                lemma_fields_round_trip(ds, fs@, 0, last, rest, o);
            },
            (Datum::Struct(ds), Shape::Struct(fs)) => {
                assert(ds.skip(0) =~= ds);
                lemma_fields_round_trip(ds, fs@, 0, last, rest, o);
            },
            _ => {},
        }
    }
}

/// Elements that each fit `el` decode back from their encodings, read to the end.
proof fn lemma_elements_round_trip(ds: Seq<Datum>, el: Shape, o: ByteOrder)
    requires
        forall|i: int|
            0 <= i < ds.len() ==> fits(ds[i], el, i == ds.len() - 1, o) && encoding(ds[i], o).len()
                > 0,
    ensures
        elements_decoding(el, encodings(ds, o), o) == Ok::<(Seq<Datum>, nat), ErrorKind>(
            (ds, encodings(ds, o).len()),
        ),
    decreases ds, 1int, 0int,
{
    if ds.len() == 0 {
        assert(ds =~= Seq::<Datum>::empty());
    } else {
        let tail = ds.drop_first();
        let e0 = encoding(ds[0], o);
        let et = encodings(tail, o);
        lemma_encodings_first(ds, o);
        assert(fits(ds[0], el, 0 == ds.len() - 1, o));
        if ds.len() == 1 {
            assert(tail =~= Seq::<Datum>::empty());
        }
        lemma_round_trip(ds[0], el, 0 == ds.len() - 1, et, o);
        assert((e0 + et).skip(e0.len() as int) =~= et);
        assert forall|i: int| 0 <= i < tail.len() implies fits(tail[i], el, i == tail.len() - 1, o)
            && encoding(tail[i], o).len() > 0 by {
            assert(tail[i] == ds[i + 1]);
        }
        assert(decreases_to!(ds => tail));
        lemma_elements_round_trip(tail, el, o);
        assert(seq![ds[0]] + tail =~= ds);
    }
}

/// Fields `ds[i..]` that fit `fs[i..]` decode back from their encodings.
proof fn lemma_fields_round_trip(
    ds: Seq<Datum>,
    fs: Seq<Shape>,
    i: int,
    last: bool,
    rest: Seq<u8>,
    o: ByteOrder,
)
    requires
        ds.len() == fs.len(),
        0 <= i <= ds.len(),
        forall|j: int| i <= j < ds.len() ==> fits(ds[j], fs[j], last && j == ds.len() - 1, o),
        last ==> rest.len() == 0,
    ensures
        fields_decoding(fs, i, encodings(ds.skip(i), o) + rest, o) == Ok::<
            (Seq<Datum>, nat),
            ErrorKind,
        >((ds.skip(i), encodings(ds.skip(i), o).len())),
    decreases ds, 1int, ds.len() - i,
{
    if i == ds.len() {
        assert(ds.skip(i) =~= Seq::<Datum>::empty());
    } else {
        let here = ds.skip(i);
        let e0 = encoding(ds[i], o);
        let et = encodings(ds.skip(i + 1), o);
        lemma_encodings_first(here, o);
        assert(here.drop_first() =~= ds.skip(i + 1));
        assert(fits(ds[i], fs[i], last && i == ds.len() - 1, o));
        if last && i == ds.len() - 1 {
            assert(ds.skip(i + 1) =~= Seq::<Datum>::empty());
            assert(et + rest =~= Seq::<u8>::empty());
        }
        lemma_round_trip(ds[i], fs[i], last && i == ds.len() - 1, et + rest, o);
        assert(e0 + et + rest =~= e0 + (et + rest));
        assert((e0 + (et + rest)).skip(e0.len() as int) =~= et + rest);
        lemma_fields_round_trip(ds, fs, i + 1, last, rest, o);
        assert(seq![ds[i]] + ds.skip(i + 1) =~= here);
    }
}

/// Encoding a value of a supported shape and decoding the bytes with that
/// shape gives the value back, in either byte order, and takes every byte.
pub proof fn law_round_trip(d: Datum, s: Shape, o: ByteOrder)
    requires
        fits(d, s, true, o),
    ensures
        decoding(s, encoding(d, o), o) == Ok::<(Datum, nat), ErrorKind>(
            (d, encoding(d, o).len()),
        ),
{
    lemma_round_trip(d, s, true, Seq::empty(), o);
    assert(encoding(d, o) + Seq::<u8>::empty() =~= encoding(d, o));
}

/// A number of a width of `w` bytes always encodes to exactly `w` bytes, and
/// decoding one takes exactly `w` bytes whenever that many are there.
pub proof fn law_fixed_width(d: Datum, s: Shape, b: Seq<u8>, o: ByteOrder)
    requires
        width_of(s) > 0,
        fits(d, s, false, o),
    ensures
        encoding(d, o).len() == width_of(s),
        b.len() >= width_of(s) ==> (decoding(s, b, o) matches Ok((_, n)) && n == width_of(s)),
{
    lemma_number_round_trip(d, s, Seq::empty(), o);
}

/// A sequence of numbers that each take `w` bytes encodes to exactly `w` bytes
/// per element, with nothing before, between or after them.
pub proof fn law_no_framing(ds: Seq<Datum>, s: Shape, o: ByteOrder)
    requires
        width_of(s) > 0,
        forall|i: int| 0 <= i < ds.len() ==> fits(ds[i], s, false, o),
    ensures
        encodings(ds, o).len() == ds.len() * width_of(s),
        encoding(Datum::Sequence(ds), o).len() == ds.len() * width_of(s),
    decreases ds.len(),
{
    if ds.len() > 0 {
        let front = ds.drop_last();
        assert forall|i: int| 0 <= i < front.len() implies fits(front[i], s, false, o) by {
            assert(front[i] == ds[i]);
        }
        law_no_framing(front, s, o);
        lemma_number_round_trip(ds.last(), s, Seq::empty(), o);
        assert(ds.len() * width_of(s) == front.len() * width_of(s) + width_of(s)) by (nonlinear_arith)
            requires
                ds.len() == front.len() + 1,
        ;
    }
    assert(encoding(Datum::Sequence(ds), o) == encodings(ds, o));
}

/// Booleans, optional values, enumerations, maps and the self-describing
/// shapes are refused as unsupported, whatever the bytes.
pub proof fn law_unsupported_rejects(s: Shape, b: Seq<u8>, o: ByteOrder)
    requires
        is_unsupported(s),
    ensures
        decoding(s, b, o) == Err::<(Datum, nat), ErrorKind>(ErrorKind::Unsupported),
{
}

} // verus!
