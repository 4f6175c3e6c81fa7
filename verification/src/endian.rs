//! Byte-order-aware encoding and decoding of 2-, 4- and 8-byte integer words.
//!
//! A [`Endian`] value exposes pure operations over fixed-size byte arrays;
//! [`EndianReader`] wraps an in-memory byte stream and a cursor to supply
//! sequential word reads.

use vstd::prelude::*;

use crate::error::TiffError;

verus! {

/// A simple enum representing known endianness.
#[derive(Debug, Copy, Clone, PartialEq, Eq, Structural)]
pub enum Endian {
    Big,
    Little,
}

/// A constant representing a Big endianness.
pub const BE: Endian = Endian::Big;

/// A constant representing a Little endianness.
pub const LE: Endian = Endian::Little;

/// The unsigned 16-bit word stored in two bytes under the given byte order.
pub open spec fn spec_u16_from(e: Endian, b: Seq<u8>) -> u16 {
    match e {
        Endian::Little => (b[0] + b[1] * 0x100) as u16,
        Endian::Big => (b[1] + b[0] * 0x100) as u16,
    }
}

/// The two bytes that store an unsigned 16-bit word under the given byte order.
pub open spec fn spec_u16_bytes(e: Endian, v: u16) -> Seq<u8> {
    match e {
        Endian::Little => seq![(v % 0x100) as u8, (v / 0x100) as u8],
        Endian::Big => seq![(v / 0x100) as u8, (v % 0x100) as u8],
    }
}

/// The unsigned 32-bit word stored in four bytes under the given byte order.
pub open spec fn spec_u32_from(e: Endian, b: Seq<u8>) -> u32 {
    match e {
        Endian::Little => (b[0] + b[1] * 0x100 + b[2] * 0x10000 + b[3] * 0x1000000) as u32,
        Endian::Big => (b[3] + b[2] * 0x100 + b[1] * 0x10000 + b[0] * 0x1000000) as u32,
    }
}

/// The four bytes that store an unsigned 32-bit word under the given byte order.
pub open spec fn spec_u32_bytes(e: Endian, v: u32) -> Seq<u8> {
    match e {
        Endian::Little => seq![
            (v % 0x100) as u8,
            ((v / 0x100) % 0x100) as u8,
            ((v / 0x10000) % 0x100) as u8,
            (v / 0x1000000) as u8,
        ],
        Endian::Big => seq![
            (v / 0x1000000) as u8,
            ((v / 0x10000) % 0x100) as u8,
            ((v / 0x100) % 0x100) as u8,
            (v % 0x100) as u8,
        ],
    }
}

/// The unsigned 64-bit word stored in eight bytes under the given byte order.
pub open spec fn spec_u64_from(e: Endian, b: Seq<u8>) -> u64 {
    match e {
        Endian::Little => (spec_u32_from(Endian::Little, b.subrange(0, 4))
            + spec_u32_from(Endian::Little, b.subrange(4, 8)) * 0x100000000) as u64,
        Endian::Big => (spec_u32_from(Endian::Big, b.subrange(4, 8))
            + spec_u32_from(Endian::Big, b.subrange(0, 4)) * 0x100000000) as u64,
    }
}

/// The eight bytes that store an unsigned 64-bit word under the given byte order.
pub open spec fn spec_u64_bytes(e: Endian, v: u64) -> Seq<u8> {
    match e {
        Endian::Little => spec_u32_bytes(Endian::Little, (v % 0x100000000) as u32) + spec_u32_bytes(
            Endian::Little,
            (v / 0x100000000) as u32,
        ),
        Endian::Big => spec_u32_bytes(Endian::Big, (v / 0x100000000) as u32) + spec_u32_bytes(
            Endian::Big,
            (v % 0x100000000) as u32,
        ),
    }
}

/// The signed reinterpretation of an unsigned 16-bit word (two's complement).
pub open spec fn spec_i16_from_u16(v: u16) -> i16 {
    if v < 0x8000 {
        v as i16
    } else {
        (v - 0x10000) as i16
    }
}

/// The signed reinterpretation of an unsigned 32-bit word (two's complement).
pub open spec fn spec_i32_from_u32(v: u32) -> i32 {
    if v < 0x80000000 {
        v as i32
    } else {
        (v - 0x100000000) as i32
    }
}

/// The signed reinterpretation of an unsigned 64-bit word (two's complement).
pub open spec fn spec_i64_from_u64(v: u64) -> i64 {
    if v < 0x8000000000000000 {
        v as i64
    } else {
        (v - 0x10000000000000000) as i64
    }
}

/// The signed reinterpretation of an unsigned byte (two's complement).
pub open spec fn spec_i8_from_u8(v: u8) -> i8 {
    if v < 0x80 {
        v as i8
    } else {
        (v - 0x100) as i8
    }
}

/// The unsigned word whose signed reinterpretation is the given 16-bit value.
pub open spec fn spec_u16_from_i16(v: i16) -> u16 {
    if v >= 0 {
        v as u16
    } else {
        (v + 0x10000) as u16
    }
}

/// The unsigned word whose signed reinterpretation is the given 32-bit value.
pub open spec fn spec_u32_from_i32(v: i32) -> u32 {
    if v >= 0 {
        v as u32
    } else {
        (v + 0x100000000) as u32
    }
}

/// The unsigned word whose signed reinterpretation is the given 64-bit value.
pub open spec fn spec_u64_from_i64(v: i64) -> u64 {
    if v >= 0 {
        v as u64
    } else {
        (v + 0x10000000000000000) as u64
    }
}

/// The unsigned byte whose signed reinterpretation is the given 8-bit value.
pub open spec fn spec_u8_from_i8(v: i8) -> u8 {
    if v >= 0 {
        v as u8
    } else {
        (v + 0x100) as u8
    }
}

/// Decoding the two bytes that encode a 16-bit word yields the word back,
/// and encoding the word decoded from two bytes yields those bytes back.
pub proof fn lemma_u16_roundtrip(e: Endian, v: u16)
    ensures
        spec_u16_bytes(e, v).len() == 2,
        spec_u16_from(e, spec_u16_bytes(e, v)) == v,
{
}

/// Two bytes are exactly the encoding of the word they decode to.
pub proof fn lemma_u16_bytes_roundtrip(e: Endian, b: Seq<u8>)
    requires
        b.len() == 2,
    ensures
        spec_u16_bytes(e, spec_u16_from(e, b)) =~= b,
{
}

/// Decoding the four bytes that encode a 32-bit word yields the word back.
pub proof fn lemma_u32_roundtrip(e: Endian, v: u32)
    ensures
        spec_u32_bytes(e, v).len() == 4,
        spec_u32_from(e, spec_u32_bytes(e, v)) == v,
{
}

/// A 32-bit word assembled from four byte digits splits back into them.
proof fn lemma_u32_digit_split(x: u32, b0: u8, b1: u8, b2: u8, b3: u8)
    by (nonlinear_arith)
    requires
        x == b0 + b1 * 0x100 + b2 * 0x10000 + b3 * 0x1000000,
    ensures
        x % 0x100 == b0,
        (x / 0x100) % 0x100 == b1,
        (x / 0x10000) % 0x100 == b2,
        x / 0x1000000 == b3,
{
}

/// Four bytes are exactly the encoding of the word they decode to.
pub proof fn lemma_u32_bytes_roundtrip(e: Endian, b: Seq<u8>)
    requires
        b.len() == 4,
    ensures
        spec_u32_bytes(e, spec_u32_from(e, b)) =~= b,
{
    let v = spec_u32_from(e, b);
    match e {
        Endian::Little => {
            lemma_u32_digit_split(v, b[0], b[1], b[2], b[3]);
        },
        Endian::Big => {
            lemma_u32_digit_split(v, b[3], b[2], b[1], b[0]);
        },
    }
}

/// Decoding the eight bytes that encode a 64-bit word yields the word back.
pub proof fn lemma_u64_roundtrip(e: Endian, v: u64)
    ensures
        spec_u64_bytes(e, v).len() == 8,
        spec_u64_from(e, spec_u64_bytes(e, v)) == v,
{
    let lo = (v % 0x100000000) as u32;
    let hi = (v / 0x100000000) as u32;
    lemma_u32_roundtrip(Endian::Little, lo);
    lemma_u32_roundtrip(Endian::Little, hi);
    lemma_u32_roundtrip(Endian::Big, lo);
    lemma_u32_roundtrip(Endian::Big, hi);
    match e {
        Endian::Little => {
            let b = spec_u64_bytes(e, v);
            assert(b.subrange(0, 4) =~= spec_u32_bytes(Endian::Little, lo));
            assert(b.subrange(4, 8) =~= spec_u32_bytes(Endian::Little, hi));
        },
        Endian::Big => {
            let b = spec_u64_bytes(e, v);
            assert(b.subrange(0, 4) =~= spec_u32_bytes(Endian::Big, hi));
            assert(b.subrange(4, 8) =~= spec_u32_bytes(Endian::Big, lo));
        },
    }
}

/// Eight bytes are exactly the encoding of the word they decode to.
pub proof fn lemma_u64_bytes_roundtrip(e: Endian, b: Seq<u8>)
    requires
        b.len() == 8,
    ensures
        spec_u64_bytes(e, spec_u64_from(e, b)) =~= b,
{
    lemma_u32_bytes_roundtrip(e, b.subrange(0, 4));
    lemma_u32_bytes_roundtrip(e, b.subrange(4, 8));
    let v = spec_u64_from(e, b);
    match e {
        Endian::Little => {
            lemma_u64_halves_split(
                v,
                spec_u32_from(e, b.subrange(0, 4)),
                spec_u32_from(e, b.subrange(4, 8)),
            );
            assert(spec_u64_bytes(e, v) =~= b);
        },
        Endian::Big => {
            lemma_u64_halves_split(
                v,
                spec_u32_from(e, b.subrange(4, 8)),
                spec_u32_from(e, b.subrange(0, 4)),
            );
            assert(spec_u64_bytes(e, v) =~= b);
        },
    }
}

/// A 64-bit word assembled from two 32-bit halves splits back into them.
proof fn lemma_u64_halves_split(x: u64, lo: u32, hi: u32)
    by (nonlinear_arith)
    requires
        x == lo + hi * 0x100000000,
    ensures
        x % 0x100000000 == lo,
        x / 0x100000000 == hi,
{
}

/// A 16-bit quantity that can be produced from two raw bytes.
pub trait Short: Copy + Sized {
    /// How a decoded unsigned word maps to this type.
    spec fn from_u16_spec(v: u16) -> Self;

    fn from_bytes_le(bytes: [u8; 2]) -> (r: Self)
        ensures
            r == Self::from_u16_spec(spec_u16_from(Endian::Little, bytes@)),
    ;

    fn from_bytes_be(bytes: [u8; 2]) -> (r: Self)
        ensures
            r == Self::from_u16_spec(spec_u16_from(Endian::Big, bytes@)),
    ;
}

impl Short for u16 {
    open spec fn from_u16_spec(v: u16) -> u16 {
        v
    }

    fn from_bytes_le(bytes: [u8; 2]) -> u16 {
        bytes[0] as u16 + bytes[1] as u16 * 0x100
    }

    fn from_bytes_be(bytes: [u8; 2]) -> u16 {
        bytes[1] as u16 + bytes[0] as u16 * 0x100
    }
}

/// Converts an unsigned 16-bit word to its two's-complement reinterpretation.
pub fn i16_from_u16(v: u16) -> (r: i16)
    ensures
        r == spec_i16_from_u16(v),
{
    if v < 0x8000 {
        v as i16
    } else {
        ((v as i32) - 0x10000) as i16
    }
}

impl Short for i16 {
    open spec fn from_u16_spec(v: u16) -> i16 {
        spec_i16_from_u16(v)
    }

    fn from_bytes_le(bytes: [u8; 2]) -> i16 {
        i16_from_u16(u16::from_bytes_le(bytes))
    }

    fn from_bytes_be(bytes: [u8; 2]) -> i16 {
        i16_from_u16(u16::from_bytes_be(bytes))
    }
}

/// A 32-bit quantity that can be produced from four raw bytes.
pub trait Long: Copy + Sized {
    /// How a decoded unsigned word maps to this type.
    spec fn from_u32_spec(v: u32) -> Self;

    fn from_bytes_le(bytes: [u8; 4]) -> (r: Self)
        ensures
            r == Self::from_u32_spec(spec_u32_from(Endian::Little, bytes@)),
    ;

    fn from_bytes_be(bytes: [u8; 4]) -> (r: Self)
        ensures
            r == Self::from_u32_spec(spec_u32_from(Endian::Big, bytes@)),
    ;
}

impl Long for u32 {
    open spec fn from_u32_spec(v: u32) -> u32 {
        v
    }

    fn from_bytes_le(bytes: [u8; 4]) -> u32 {
        bytes[0] as u32 + bytes[1] as u32 * 0x100 + bytes[2] as u32 * 0x10000 + bytes[3] as u32
            * 0x1000000
    }

    fn from_bytes_be(bytes: [u8; 4]) -> u32 {
        bytes[3] as u32 + bytes[2] as u32 * 0x100 + bytes[1] as u32 * 0x10000 + bytes[0] as u32
            * 0x1000000
    }
}

/// Converts an unsigned 32-bit word to its two's-complement reinterpretation.
pub fn i32_from_u32(v: u32) -> (r: i32)
    ensures
        r == spec_i32_from_u32(v),
{
    if v < 0x80000000 {
        v as i32
    } else {
        ((v as i64) - 0x100000000) as i32
    }
}

impl Long for i32 {
    open spec fn from_u32_spec(v: u32) -> i32 {
        spec_i32_from_u32(v)
    }

    fn from_bytes_le(bytes: [u8; 4]) -> i32 {
        i32_from_u32(u32::from_bytes_le(bytes))
    }

    fn from_bytes_be(bytes: [u8; 4]) -> i32 {
        i32_from_u32(u32::from_bytes_be(bytes))
    }
}

/// A 64-bit quantity that can be produced from eight raw bytes.
pub trait LongLong: Copy + Sized {
    /// How a decoded unsigned word maps to this type.
    spec fn from_u64_spec(v: u64) -> Self;

    fn from_bytes_le(bytes: [u8; 8]) -> (r: Self)
        ensures
            r == Self::from_u64_spec(spec_u64_from(Endian::Little, bytes@)),
    ;

    fn from_bytes_be(bytes: [u8; 8]) -> (r: Self)
        ensures
            r == Self::from_u64_spec(spec_u64_from(Endian::Big, bytes@)),
    ;
}

impl LongLong for u64 {
    open spec fn from_u64_spec(v: u64) -> u64 {
        v
    }

    fn from_bytes_le(bytes: [u8; 8]) -> (r: u64)
    {
        let lo = u32::from_bytes_le([bytes[0], bytes[1], bytes[2], bytes[3]]);
        let hi = u32::from_bytes_le([bytes[4], bytes[5], bytes[6], bytes[7]]);
        proof {
            assert([bytes[0], bytes[1], bytes[2], bytes[3]]@ =~= bytes@.subrange(0, 4));
            assert([bytes[4], bytes[5], bytes[6], bytes[7]]@ =~= bytes@.subrange(4, 8));
        }
        lo as u64 + hi as u64 * 0x100000000
    }

    fn from_bytes_be(bytes: [u8; 8]) -> (r: u64)
    {
        let hi = u32::from_bytes_be([bytes[0], bytes[1], bytes[2], bytes[3]]);
        let lo = u32::from_bytes_be([bytes[4], bytes[5], bytes[6], bytes[7]]);
        proof {
            assert([bytes[0], bytes[1], bytes[2], bytes[3]]@ =~= bytes@.subrange(0, 4));
            assert([bytes[4], bytes[5], bytes[6], bytes[7]]@ =~= bytes@.subrange(4, 8));
        }
        lo as u64 + hi as u64 * 0x100000000
    }
}

/// Converts an unsigned 64-bit word to its two's-complement reinterpretation.
pub fn i64_from_u64(v: u64) -> (r: i64)
    ensures
        r == spec_i64_from_u64(v),
{
    if v < 0x8000000000000000 {
        v as i64
    } else {
        ((v - 0x8000000000000000) as i64) + i64::MIN
    }
}

impl LongLong for i64 {
    open spec fn from_u64_spec(v: u64) -> i64 {
        spec_i64_from_u64(v)
    }

    fn from_bytes_le(bytes: [u8; 8]) -> i64 {
        i64_from_u64(u64::from_bytes_le(bytes))
    }

    fn from_bytes_be(bytes: [u8; 8]) -> i64 {
        i64_from_u64(u64::from_bytes_be(bytes))
    }
}

/// Converts an unsigned byte to its two's-complement reinterpretation.
pub fn i8_from_u8(v: u8) -> (r: i8)
    ensures
        r == spec_i8_from_u8(v),
{
    if v < 0x80 {
        v as i8
    } else {
        ((v as i16) - 0x100) as i8
    }
}

/// Converts a signed byte to the unsigned byte with the same bits.
pub fn u8_from_i8(v: i8) -> (r: u8)
    ensures
        r == spec_u8_from_i8(v),
{
    if v >= 0 {
        v as u8
    } else {
        ((v as i16) + 0x100) as u8
    }
}

/// Converts a signed 16-bit value to the unsigned word with the same bits.
pub fn u16_from_i16(v: i16) -> (r: u16)
    ensures
        r == spec_u16_from_i16(v),
{
    if v >= 0 {
        v as u16
    } else {
        ((v as i32) + 0x10000) as u16
    }
}

/// Converts a signed 32-bit value to the unsigned word with the same bits.
pub fn u32_from_i32(v: i32) -> (r: u32)
    ensures
        r == spec_u32_from_i32(v),
{
    if v >= 0 {
        v as u32
    } else {
        ((v as i64) + 0x100000000) as u32
    }
}

/// Converts a signed 64-bit value to the unsigned word with the same bits.
pub fn u64_from_i64(v: i64) -> (r: u64)
    ensures
        r == spec_u64_from_i64(v),
{
    if v >= 0 {
        v as u64
    } else {
        ((v + 0x4000000000000000) + 0x4000000000000000) as u64 + 0x8000000000000000
    }
}

impl Endian {
    /// Decodes a 16-bit quantity from two bytes under this byte order.
    pub fn short_from_bytes<T: Short>(self, bytes: [u8; 2]) -> (r: T)
        ensures
            r == T::from_u16_spec(spec_u16_from(self, bytes@)),
    {
        match self {
            Endian::Big => T::from_bytes_be(bytes),
            Endian::Little => T::from_bytes_le(bytes),
        }
    }

    /// Decodes a 32-bit quantity from four bytes under this byte order.
    pub fn long_from_bytes<T: Long>(self, bytes: [u8; 4]) -> (r: T)
        ensures
            r == T::from_u32_spec(spec_u32_from(self, bytes@)),
    {
        match self {
            Endian::Big => T::from_bytes_be(bytes),
            Endian::Little => T::from_bytes_le(bytes),
        }
    }

    /// Decodes a 64-bit quantity from eight bytes under this byte order.
    pub fn longlong_from_bytes<T: LongLong>(self, bytes: [u8; 8]) -> (r: T)
        ensures
            r == T::from_u64_spec(spec_u64_from(self, bytes@)),
    {
        match self {
            Endian::Big => T::from_bytes_be(bytes),
            Endian::Little => T::from_bytes_le(bytes),
        }
    }

    /// Encodes an unsigned 16-bit word as two bytes under this byte order.
    pub fn short_adjusted(self, v: u16) -> (r: [u8; 2])
        ensures
            r@ =~= spec_u16_bytes(self, v),
    {
        let lo = (v % 0x100) as u8;
        let hi = (v / 0x100) as u8;
        match self {
            Endian::Little => [lo, hi],
            Endian::Big => [hi, lo],
        }
    }

    /// Encodes an unsigned 32-bit word as four bytes under this byte order.
    pub fn long_adjusted(self, v: u32) -> (r: [u8; 4])
        ensures
            r@ =~= spec_u32_bytes(self, v),
    {
        let b0 = (v % 0x100) as u8;
        let b1 = ((v / 0x100) % 0x100) as u8;
        let b2 = ((v / 0x10000) % 0x100) as u8;
        let b3 = (v / 0x1000000) as u8;
        match self {
            Endian::Little => [b0, b1, b2, b3],
            Endian::Big => [b3, b2, b1, b0],
        }
    }

    /// Encodes an unsigned 64-bit word as eight bytes under this byte order.
    pub fn longlong_adjusted(self, v: u64) -> (r: [u8; 8])
        ensures
            r@ =~= spec_u64_bytes(self, v),
    {
        let lo = self.long_adjusted((v % 0x100000000) as u32);
        let hi = self.long_adjusted((v / 0x100000000) as u32);
        match self {
            Endian::Little => [lo[0], lo[1], lo[2], lo[3], hi[0], hi[1], hi[2], hi[3]],
            Endian::Big => [hi[0], hi[1], hi[2], hi[3], lo[0], lo[1], lo[2], lo[3]],
        }
    }
}

/// Appends the two bytes that store a 16-bit word under the given byte order.
pub fn push_u16(buf: &mut Vec<u8>, e: Endian, v: u16)
    ensures
        final(buf)@ == old(buf)@ + spec_u16_bytes(e, v),
{
    let b = e.short_adjusted(v);
    buf.push(b[0]);
    buf.push(b[1]);
    proof {
        assert(buf@ =~= old(buf)@ + spec_u16_bytes(e, v));
    }
}

/// Appends the four bytes that store a 32-bit word under the given byte order.
pub fn push_u32(buf: &mut Vec<u8>, e: Endian, v: u32)
    ensures
        final(buf)@ == old(buf)@ + spec_u32_bytes(e, v),
{
    let b = e.long_adjusted(v);
    buf.push(b[0]);
    buf.push(b[1]);
    buf.push(b[2]);
    buf.push(b[3]);
    proof {
        assert(buf@ =~= old(buf)@ + spec_u32_bytes(e, v));
    }
}

/// Appends the eight bytes that store a 64-bit word under the given byte order.
pub fn push_u64(buf: &mut Vec<u8>, e: Endian, v: u64)
    ensures
        final(buf)@ == old(buf)@ + spec_u64_bytes(e, v),
{
    let b = e.longlong_adjusted(v);
    let mut i: usize = 0;
    while i < 8
        invariant
            i <= 8,
            b@ =~= spec_u64_bytes(e, v),
            buf@ == old(buf)@ + b@.take(i as int),
        decreases 8 - i,
    {
        buf.push(b[i]);
        proof {
            assert(old(buf)@ + b@.take(i as int) + seq![b@[i as int]] =~= old(buf)@ + b@.take(
                i as int + 1,
            ));
        }
        i = i + 1;
    }
    proof {
        assert(b@.take(8) =~= spec_u64_bytes(e, v));
    }
}

/// A reader aware of endianness: a cursor over an in-memory byte stream.
pub struct EndianReader<'a> {
    data: &'a Vec<u8>,
    pos: usize,
    endian: Endian,
}

impl<'a> EndianReader<'a> {
    /// The bytes this reader walks over.
    pub closed spec fn spec_data(&self) -> Seq<u8> {
        self.data@
    }

    /// The current cursor position.
    pub closed spec fn spec_pos(&self) -> int {
        self.pos as int
    }

    /// The byte order applied to every word read.
    pub closed spec fn spec_endian(&self) -> Endian {
        self.endian
    }

    /// Creates an `EndianReader` from a byte stream and an `Endian` value,
    /// with the cursor at the start of the stream.
    pub fn new(data: &'a Vec<u8>, endian: Endian) -> (r: EndianReader<'a>)
        ensures
            r.spec_data() == data@,
            r.spec_pos() == 0,
            r.spec_endian() == endian,
    {
        EndianReader { data, pos: 0, endian }
    }

    /// Moves the cursor to an absolute position in the stream.
    pub fn seek(&mut self, pos: usize)
        ensures
            final(self).spec_data() == old(self).spec_data(),
            final(self).spec_endian() == old(self).spec_endian(),
            final(self).spec_pos() == pos as int,
    {
        self.pos = pos;
    }

    /// Reads a 16-bit quantity at the cursor, advancing it by two bytes.
    /// Fails with `UnexpectedEof` when fewer than two bytes remain.
    pub fn read_short<T: Short>(&mut self) -> (r: Result<T, TiffError>)
        ensures
            final(self).spec_data() == old(self).spec_data(),
            final(self).spec_endian() == old(self).spec_endian(),
            match r {
                Ok(v) => {
                    &&& old(self).spec_pos() + 2 <= old(self).spec_data().len()
                    &&& final(self).spec_pos() == old(self).spec_pos() + 2
                    &&& v == T::from_u16_spec(
                        spec_u16_from(
                            old(self).spec_endian(),
                            old(self).spec_data().subrange(
                                old(self).spec_pos(),
                                old(self).spec_pos() + 2,
                            ),
                        ),
                    )
                },
                Err(e) => {
                    &&& old(self).spec_pos() + 2 > old(self).spec_data().len()
                    &&& e == TiffError::UnexpectedEof
                    &&& *final(self) == *old(self)
                },
            },
    {
        if self.pos < self.data.len() && 2 <= self.data.len() - self.pos {
            let buf: [u8; 2] = [self.data[self.pos], self.data[self.pos + 1]];
            proof {
                assert(buf@ =~= self.data@.subrange(self.pos as int, self.pos as int + 2));
            }
            let v = self.endian.short_from_bytes(buf);
            self.pos = self.pos + 2;
            Ok(v)
        } else {
            Err(TiffError::UnexpectedEof)
        }
    }

    /// Reads a 32-bit quantity at the cursor, advancing it by four bytes.
    /// Fails with `UnexpectedEof` when fewer than four bytes remain.
    pub fn read_long<T: Long>(&mut self) -> (r: Result<T, TiffError>)
        ensures
            final(self).spec_data() == old(self).spec_data(),
            final(self).spec_endian() == old(self).spec_endian(),
            match r {
                Ok(v) => {
                    &&& old(self).spec_pos() + 4 <= old(self).spec_data().len()
                    &&& final(self).spec_pos() == old(self).spec_pos() + 4
                    &&& v == T::from_u32_spec(
                        spec_u32_from(
                            old(self).spec_endian(),
                            old(self).spec_data().subrange(
                                old(self).spec_pos(),
                                old(self).spec_pos() + 4,
                            ),
                        ),
                    )
                },
                Err(e) => {
                    &&& old(self).spec_pos() + 4 > old(self).spec_data().len()
                    &&& e == TiffError::UnexpectedEof
                    &&& *final(self) == *old(self)
                },
            },
    {
        if self.pos < self.data.len() && 4 <= self.data.len() - self.pos {
            let buf: [u8; 4] = [
                self.data[self.pos],
                self.data[self.pos + 1],
                self.data[self.pos + 2],
                self.data[self.pos + 3],
            ];
            proof {
                assert(buf@ =~= self.data@.subrange(self.pos as int, self.pos as int + 4));
            }
            let v = self.endian.long_from_bytes(buf);
            self.pos = self.pos + 4;
            Ok(v)
        } else {
            Err(TiffError::UnexpectedEof)
        }
    }

    /// Reads a 64-bit quantity at the cursor, advancing it by eight bytes.
    /// Fails with `UnexpectedEof` when fewer than eight bytes remain.
    pub fn read_longlong<T: LongLong>(&mut self) -> (r: Result<T, TiffError>)
        ensures
            final(self).spec_data() == old(self).spec_data(),
            final(self).spec_endian() == old(self).spec_endian(),
            match r {
                Ok(v) => {
                    &&& old(self).spec_pos() + 8 <= old(self).spec_data().len()
                    &&& final(self).spec_pos() == old(self).spec_pos() + 8
                    &&& v == T::from_u64_spec(
                        spec_u64_from(
                            old(self).spec_endian(),
                            old(self).spec_data().subrange(
                                old(self).spec_pos(),
                                old(self).spec_pos() + 8,
                            ),
                        ),
                    )
                },
                Err(e) => {
                    &&& old(self).spec_pos() + 8 > old(self).spec_data().len()
                    &&& e == TiffError::UnexpectedEof
                    &&& *final(self) == *old(self)
                },
            },
    {
        if self.pos < self.data.len() && 8 <= self.data.len() - self.pos {
            let buf: [u8; 8] = [
                self.data[self.pos],
                self.data[self.pos + 1],
                self.data[self.pos + 2],
                self.data[self.pos + 3],
                self.data[self.pos + 4],
                self.data[self.pos + 5],
                self.data[self.pos + 6],
                self.data[self.pos + 7],
            ];
            proof {
                assert(buf@ =~= self.data@.subrange(self.pos as int, self.pos as int + 8));
            }
            let v = self.endian.longlong_from_bytes(buf);
            self.pos = self.pos + 8;
            Ok(v)
        } else {
            Err(TiffError::UnexpectedEof)
        }
    }
}

} // verus!
