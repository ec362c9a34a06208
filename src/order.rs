//! Byte-order policy: how a multi-byte integer is laid out in the stream.
use vstd::prelude::*;

use byteorder::{BigEndian, ByteOrder as _, LittleEndian};

verus! {

/// The order in which the bytes of a multi-byte number are written and read.
#[derive(Clone, Copy, Debug, PartialEq, Eq, Structural)]
pub enum ByteOrder {
    /// Most significant byte first.
    Big,
    /// Least significant byte first.
    Little,
}

/// `256` to the power `w`: the number of values that `w` bytes can hold.
pub open spec fn radix(w: nat) -> nat
    decreases w,
{
    if w == 0 {
        1
    } else {
        256 * radix((w - 1) as nat)
    }
}

/// The unsigned number that `b` holds when read most significant byte first.
pub open spec fn be_value(b: Seq<u8>) -> nat
    decreases b.len(),
{
    if b.len() == 0 {
        0
    } else {
        (be_value(b.drop_last()) * 256 + b.last()) as nat
    }
}

/// The unsigned number that `b` holds when read least significant byte first.
pub open spec fn le_value(b: Seq<u8>) -> nat
    decreases b.len(),
{
    if b.len() == 0 {
        0
    } else {
        (b[0] + 256 * le_value(b.drop_first())) as nat
    }
}

/// The `w` low-order bytes of `n`, most significant first.
pub open spec fn be_bytes(n: nat, w: nat) -> Seq<u8>
    decreases w,
{
    if w == 0 {
        Seq::empty()
    } else {
        be_bytes(n / 256, (w - 1) as nat).push((n % 256) as u8)
    }
}

/// The `w` low-order bytes of `n`, least significant first.
pub open spec fn le_bytes(n: nat, w: nat) -> Seq<u8>
    decreases w,
{
    if w == 0 {
        Seq::empty()
    } else {
        seq![(n % 256) as u8] + le_bytes(n / 256, (w - 1) as nat)
    }
}

/// The unsigned number that `b` holds in byte order `o`.
pub open spec fn uint_value(b: Seq<u8>, o: ByteOrder) -> nat {
    match o {
        ByteOrder::Big => be_value(b),
        ByteOrder::Little => le_value(b),
    }
}

/// The `w` bytes that hold the unsigned number `n` in byte order `o`.
pub open spec fn uint_bytes(n: nat, w: nat, o: ByteOrder) -> Seq<u8> {
    match o {
        ByteOrder::Big => be_bytes(n, w),
        ByteOrder::Little => le_bytes(n, w),
    }
}

/// The two's-complement pattern of `i` in `w` bytes, as an unsigned number.
pub open spec fn twos_complement(i: int, w: nat) -> nat {
    if i < 0 {
        (i + radix(w)) as nat
    } else {
        i as nat
    }
}

/// The signed number whose two's-complement pattern in `w` bytes is `u`.
pub open spec fn signed_of(u: nat, w: nat) -> int {
    if 2 * u >= radix(w) {
        u - radix(w)
    } else {
        u as int
    }
}

/// The signed number that `b` holds in two's complement and byte order `o`.
pub open spec fn int_value(b: Seq<u8>, o: ByteOrder) -> int {
    signed_of(uint_value(b, o), b.len())
}

/// The `w` bytes that hold the signed number `i` in two's complement and byte order `o`.
pub open spec fn int_bytes(i: int, w: nat, o: ByteOrder) -> Seq<u8> {
    uint_bytes(twos_complement(i, w), w, o)
}

pub proof fn lemma_radix_values()
    ensures
        radix(1) == 0x100,
        radix(2) == 0x10000,
        radix(4) == 0x1_0000_0000,
        radix(8) == 0x1_0000_0000_0000_0000,
        radix(16) == 0x1_0000_0000_0000_0000_0000_0000_0000_0000,
{
    reveal_with_fuel(radix, 17);
}

/// Every `w`-byte sequence holds a number below `radix(w)`.
pub proof fn lemma_value_bound(b: Seq<u8>)
    ensures
        be_value(b) < radix(b.len()),
        le_value(b) < radix(b.len()),
    decreases b.len(),
{
    if b.len() > 0 {
        lemma_value_bound(b.drop_last());
        lemma_value_bound(b.drop_first());
    }
}

pub proof fn lemma_bytes_len(n: nat, w: nat, o: ByteOrder)
    ensures
        uint_bytes(n, w, o).len() == w,
    decreases w,
{
    if w > 0 {
        lemma_bytes_len(n / 256, (w - 1) as nat, o);
    }
}

/// Writing a number that fits and reading it back gives the number.
pub proof fn lemma_value_of_bytes(n: nat, w: nat, o: ByteOrder)
    requires
        n < radix(w),
    ensures
        uint_value(uint_bytes(n, w, o), o) == n,
        uint_bytes(n, w, o).len() == w,
    decreases w,
{
    lemma_bytes_len(n, w, o);
    if w > 0 {
        let m = n / 256;
        assert(m < radix((w - 1) as nat));
        lemma_value_of_bytes(m, (w - 1) as nat, o);
        match o {
            ByteOrder::Big => {
                let b = be_bytes(n, w);
                assert(b.drop_last() =~= be_bytes(m, (w - 1) as nat));
            },
            ByteOrder::Little => {
                let b = le_bytes(n, w);
                assert(b.drop_first() =~= le_bytes(m, (w - 1) as nat));
            },
        }
    }
}

/// Signed form of [`lemma_value_of_bytes`].
pub proof fn lemma_signed_value_of_bytes(i: int, w: nat, o: ByteOrder)
    requires
        w >= 1,
        -radix(w) <= 2 * i < radix(w),
    ensures
        int_value(int_bytes(i, w, o), o) == i,
        int_bytes(i, w, o).len() == w,
{
    lemma_value_of_bytes(twos_complement(i, w), w, o);
}

/// Relies on byteorder's `read_uint128`: reads `buf[..nbytes]` as an unsigned
/// number, in big-endian order.
#[verifier::external_body]
fn be_read_uint(buf: &[u8], nbytes: usize) -> (r: u128)
    requires
        1 <= nbytes <= 16,
        nbytes == buf@.len(),
    ensures
        r == be_value(buf@),
{
    BigEndian::read_uint128(buf, nbytes)
}

/// Relies on byteorder's `read_uint128`: reads `buf[..nbytes]` as an unsigned
/// number, in little-endian order.
#[verifier::external_body]
fn le_read_uint(buf: &[u8], nbytes: usize) -> (r: u128)
    requires
        1 <= nbytes <= 16,
        nbytes == buf@.len(),
    ensures
        r == le_value(buf@),
{
    LittleEndian::read_uint128(buf, nbytes)
}

/// Relies on byteorder's `write_uint128`: writes the `nbytes` low-order bytes
/// of `n` in big-endian order; it asserts that `n` fits in them.
#[verifier::external_body]
fn be_write_uint(n: u128, nbytes: usize) -> (r: Vec<u8>)
    requires
        1 <= nbytes <= 16,
        n < radix(nbytes as nat),
    ensures
        r@ == be_bytes(n as nat, nbytes as nat),
{
    let mut buf = vec![0u8; nbytes];
    BigEndian::write_uint128(&mut buf, n, nbytes);
    buf
}

/// Relies on byteorder's `write_uint128`: writes the `nbytes` low-order bytes
/// of `n` in little-endian order; it asserts that `n` fits in them.
#[verifier::external_body]
fn le_write_uint(n: u128, nbytes: usize) -> (r: Vec<u8>)
    requires
        1 <= nbytes <= 16,
        n < radix(nbytes as nat),
    ensures
        r@ == le_bytes(n as nat, nbytes as nat),
{
    let mut buf = vec![0u8; nbytes];
    LittleEndian::write_uint128(&mut buf, n, nbytes);
    buf
}

impl ByteOrder {
    /// Reads the unsigned number that `buf` holds in this byte order.
    pub fn read_uint(self, buf: &[u8]) -> (r: u128)
        requires
            1 <= buf@.len() <= 16,
        ensures
            r == uint_value(buf@, self),
    {
        match self {
            ByteOrder::Big => be_read_uint(buf, buf.len()),
            ByteOrder::Little => le_read_uint(buf, buf.len()),
        }
    }

    /// The `width` bytes that hold the unsigned number `n` in this byte order.
    pub fn write_uint(self, n: u128, width: usize) -> (r: Vec<u8>)
        requires
            1 <= width <= 16,
            n < radix(width as nat),
        ensures
            r@ == uint_bytes(n as nat, width as nat, self),
            r@.len() == width,
    {
        proof {
            lemma_bytes_len(n as nat, width as nat, self);
        }
        match self {
            ByteOrder::Big => be_write_uint(n, width),
            ByteOrder::Little => le_write_uint(n, width),
        }
    }
}

} // verus!
