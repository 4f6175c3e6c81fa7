//! The value model: the twelve-variant sum of TIFF primitive types, its
//! mathematical view, and the byte-level payload codec.
//!
//! Floating-point elements are carried through their bit-equal integer
//! representation: an IEEE-754 single as its 32-bit pattern, a double as its
//! 64-bit pattern.  The codec never interprets those bits.

use vstd::prelude::*;
use vstd::string::StrSliceExecFns;
use vstd::string::StringExecFnsIsAscii;

use crate::endian::Endian;
use crate::error::TiffError;
use crate::ifd::IFDEntry;
use crate::endian::lemma_u16_roundtrip;
use crate::endian::lemma_u32_roundtrip;
use crate::endian::lemma_u64_roundtrip;
use crate::endian::spec_i16_from_u16;
use crate::endian::spec_i32_from_u32;
use crate::endian::spec_i8_from_u8;
use crate::endian::spec_u16_bytes;
use crate::endian::spec_u16_from;
use crate::endian::spec_u16_from_i16;
use crate::endian::spec_u32_bytes;
use crate::endian::spec_u32_from;
use crate::endian::spec_u32_from_i32;
use crate::endian::spec_u64_bytes;
use crate::endian::spec_u64_from;
use crate::endian::spec_u8_from_i8;

verus! {

/// A generic rational helper struct: an ordered (numerator, denominator)
/// pair of equally wide integers.  A zero denominator is well-formed; its
/// interpretation is the consumer's responsibility.
#[derive(Debug, Clone, Copy, PartialEq, Eq, Structural)]
pub struct Rational<T> {
    pub num: T,
    pub denom: T,
}

/// A `TIFFValue` represents the primitives stored inside the TIFF file
/// format: each variant carries an ordered sequence of elements of one of
/// the twelve primitive types.  `Float` and `Double` elements are IEEE-754
/// bit patterns.
#[derive(Debug)]
pub enum TIFFValue {
    Byte(Vec<u8>),
    Ascii(Vec<String>),
    Short(Vec<u16>),
    Long(Vec<u32>),
    Rational(Vec<Rational<u32>>),
    SByte(Vec<i8>),
    Undefined(Vec<u8>),
    SShort(Vec<i16>),
    SLong(Vec<i32>),
    SRational(Vec<Rational<i32>>),
    Float(Vec<u32>),
    Double(Vec<u64>),
}

/// The mathematical view of a `TIFFValue`: every element sequence becomes a
/// `Seq`, strings become character sequences, rationals become pairs.
#[verifier::ext_equal]
pub enum ValueView {
    Byte(Seq<u8>),
    Ascii(Seq<Seq<char>>),
    Short(Seq<u16>),
    Long(Seq<u32>),
    Rational(Seq<(u32, u32)>),
    SByte(Seq<i8>),
    Undefined(Seq<u8>),
    SShort(Seq<i16>),
    SLong(Seq<i32>),
    SRational(Seq<(i32, i32)>),
    Float(Seq<u32>),
    Double(Seq<u64>),
}

impl View for TIFFValue {
    type V = ValueView;

    open spec fn view(&self) -> ValueView {
        match self {
            TIFFValue::Byte(v) => ValueView::Byte(v@),
            TIFFValue::Ascii(v) => ValueView::Ascii(v.deep_view()),
            TIFFValue::Short(v) => ValueView::Short(v@),
            TIFFValue::Long(v) => ValueView::Long(v@),
            TIFFValue::Rational(v) => ValueView::Rational(
                Seq::new(v@.len(), |i: int| (v@[i].num, v@[i].denom)),
            ),
            TIFFValue::SByte(v) => ValueView::SByte(v@),
            TIFFValue::Undefined(v) => ValueView::Undefined(v@),
            TIFFValue::SShort(v) => ValueView::SShort(v@),
            TIFFValue::SLong(v) => ValueView::SLong(v@),
            TIFFValue::SRational(v) => ValueView::SRational(
                Seq::new(v@.len(), |i: int| (v@[i].num, v@[i].denom)),
            ),
            TIFFValue::Float(v) => ValueView::Float(v@),
            TIFFValue::Double(v) => ValueView::Double(v@),
        }
    }
}

/// The wire type code of a value variant.
pub open spec fn spec_type_code(v: ValueView) -> u16 {
    match v {
        ValueView::Byte(_) => 1,
        ValueView::Ascii(_) => 2,
        ValueView::Short(_) => 3,
        ValueView::Long(_) => 4,
        ValueView::Rational(_) => 5,
        ValueView::SByte(_) => 6,
        ValueView::Undefined(_) => 7,
        ValueView::SShort(_) => 8,
        ValueView::SLong(_) => 9,
        ValueView::SRational(_) => 10,
        ValueView::Float(_) => 11,
        ValueView::Double(_) => 12,
    }
}

/// The width in bytes of one element of the given wire type.  Unknown type
/// codes are treated as element width 1.
pub open spec fn spec_element_width(t: u16) -> nat {
    if t == 3 || t == 8 {
        2
    } else if t == 4 || t == 9 || t == 11 {
        4
    } else if t == 5 || t == 10 || t == 12 {
        8
    } else {
        1
    }
}

// ---------------------------------------------------------------------------
// Flat serialisation of element sequences.
// ---------------------------------------------------------------------------

/// The concatenated encodings of a sequence of 16-bit words.
pub open spec fn spec_u16s_bytes(e: Endian, vs: Seq<u16>) -> Seq<u8>
    decreases vs.len(),
{
    if vs.len() == 0 {
        Seq::empty()
    } else {
        spec_u16_bytes(e, vs[0]) + spec_u16s_bytes(e, vs.drop_first())
    }
}

/// The concatenated encodings of a sequence of 32-bit words.
pub open spec fn spec_u32s_bytes(e: Endian, vs: Seq<u32>) -> Seq<u8>
    decreases vs.len(),
{
    if vs.len() == 0 {
        Seq::empty()
    } else {
        spec_u32_bytes(e, vs[0]) + spec_u32s_bytes(e, vs.drop_first())
    }
}

/// The concatenated encodings of a sequence of 64-bit words.
pub open spec fn spec_u64s_bytes(e: Endian, vs: Seq<u64>) -> Seq<u8>
    decreases vs.len(),
{
    if vs.len() == 0 {
        Seq::empty()
    } else {
        spec_u64_bytes(e, vs[0]) + spec_u64s_bytes(e, vs.drop_first())
    }
}

/// The 16-bit words stored in consecutive 2-byte groups.
pub open spec fn spec_u16s_from(e: Endian, b: Seq<u8>) -> Seq<u16> {
    Seq::new((b.len() / 2) as nat, |i: int| spec_u16_from(e, b.subrange(2 * i, 2 * i + 2)))
}

/// The 32-bit words stored in consecutive 4-byte groups.
pub open spec fn spec_u32s_from(e: Endian, b: Seq<u8>) -> Seq<u32> {
    Seq::new((b.len() / 4) as nat, |i: int| spec_u32_from(e, b.subrange(4 * i, 4 * i + 4)))
}

/// The 64-bit words stored in consecutive 8-byte groups.
pub open spec fn spec_u64s_from(e: Endian, b: Seq<u8>) -> Seq<u64> {
    Seq::new((b.len() / 8) as nat, |i: int| spec_u64_from(e, b.subrange(8 * i, 8 * i + 8)))
}

pub proof fn lemma_u16s_bytes_len(e: Endian, vs: Seq<u16>)
    ensures
        spec_u16s_bytes(e, vs).len() == 2 * vs.len(),
    decreases vs.len(),
{
    if vs.len() > 0 {
        lemma_u16s_bytes_len(e, vs.drop_first());
    }
}

pub proof fn lemma_u32s_bytes_len(e: Endian, vs: Seq<u32>)
    ensures
        spec_u32s_bytes(e, vs).len() == 4 * vs.len(),
    decreases vs.len(),
{
    if vs.len() > 0 {
        lemma_u32s_bytes_len(e, vs.drop_first());
    }
}

pub proof fn lemma_u64s_bytes_len(e: Endian, vs: Seq<u64>)
    ensures
        spec_u64s_bytes(e, vs).len() == 8 * vs.len(),
    decreases vs.len(),
{
    if vs.len() > 0 {
        lemma_u64s_bytes_len(e, vs.drop_first());
    }
}

/// Appending one word appends its encoding.
pub proof fn lemma_u16s_bytes_push(e: Endian, vs: Seq<u16>, w: u16)
    ensures
        spec_u16s_bytes(e, vs.push(w)) =~= spec_u16s_bytes(e, vs) + spec_u16_bytes(e, w),
    decreases vs.len(),
{
    if vs.len() == 0 {
        assert(vs.push(w).drop_first() =~= vs);
        assert(vs.push(w)[0] == w);
        assert(spec_u16s_bytes(e, vs.push(w)) =~= spec_u16_bytes(e, w) + spec_u16s_bytes(
            e,
            vs,
        ));
    } else {
        assert(vs.push(w).drop_first() =~= vs.drop_first().push(w));
        lemma_u16s_bytes_push(e, vs.drop_first(), w);
    }
}

/// Appending one word appends its encoding.
pub proof fn lemma_u32s_bytes_push(e: Endian, vs: Seq<u32>, w: u32)
    ensures
        spec_u32s_bytes(e, vs.push(w)) =~= spec_u32s_bytes(e, vs) + spec_u32_bytes(e, w),
    decreases vs.len(),
{
    if vs.len() == 0 {
        assert(vs.push(w).drop_first() =~= vs);
        assert(vs.push(w)[0] == w);
        assert(spec_u32s_bytes(e, vs.push(w)) =~= spec_u32_bytes(e, w) + spec_u32s_bytes(
            e,
            vs,
        ));
    } else {
        assert(vs.push(w).drop_first() =~= vs.drop_first().push(w));
        lemma_u32s_bytes_push(e, vs.drop_first(), w);
    }
}

/// Appending one word appends its encoding.
pub proof fn lemma_u64s_bytes_push(e: Endian, vs: Seq<u64>, w: u64)
    ensures
        spec_u64s_bytes(e, vs.push(w)) =~= spec_u64s_bytes(e, vs) + spec_u64_bytes(e, w),
    decreases vs.len(),
{
    if vs.len() == 0 {
        assert(vs.push(w).drop_first() =~= vs);
        assert(vs.push(w)[0] == w);
        assert(spec_u64s_bytes(e, vs.push(w)) =~= spec_u64_bytes(e, w) + spec_u64s_bytes(
            e,
            vs,
        ));
    } else {
        assert(vs.push(w).drop_first() =~= vs.drop_first().push(w));
        lemma_u64s_bytes_push(e, vs.drop_first(), w);
    }
}

/// Decoding the flat serialisation of 16-bit words yields the words back.
pub proof fn lemma_u16s_roundtrip(e: Endian, vs: Seq<u16>)
    ensures
        spec_u16s_from(e, spec_u16s_bytes(e, vs)) =~= vs,
    decreases vs.len(),
{
    lemma_u16s_bytes_len(e, vs);
    if vs.len() > 0 {
        let b = spec_u16s_bytes(e, vs);
        let rest = spec_u16s_bytes(e, vs.drop_first());
        lemma_u16s_bytes_len(e, vs.drop_first());
        lemma_u16s_roundtrip(e, vs.drop_first());
        lemma_u16_roundtrip(e, vs[0]);
        assert(b.subrange(0, 2) =~= spec_u16_bytes(e, vs[0]));
        assert forall|i: int| 1 <= i < vs.len() implies spec_u16_from(
            e,
            b.subrange(2 * i, 2 * i + 2),
        ) == vs[i] by {
            assert(b.subrange(2 * i, 2 * i + 2) =~= rest.subrange(2 * (i - 1), 2 * (i - 1) + 2));
            assert(spec_u16s_from(e, rest)[i - 1] == vs.drop_first()[i - 1]);
        }
    }
}

/// Decoding the flat serialisation of 32-bit words yields the words back.
pub proof fn lemma_u32s_roundtrip(e: Endian, vs: Seq<u32>)
    ensures
        spec_u32s_from(e, spec_u32s_bytes(e, vs)) =~= vs,
    decreases vs.len(),
{
    lemma_u32s_bytes_len(e, vs);
    if vs.len() > 0 {
        let b = spec_u32s_bytes(e, vs);
        let rest = spec_u32s_bytes(e, vs.drop_first());
        lemma_u32s_bytes_len(e, vs.drop_first());
        lemma_u32s_roundtrip(e, vs.drop_first());
        lemma_u32_roundtrip(e, vs[0]);
        assert(b.subrange(0, 4) =~= spec_u32_bytes(e, vs[0]));
        assert forall|i: int| 1 <= i < vs.len() implies spec_u32_from(
            e,
            b.subrange(4 * i, 4 * i + 4),
        ) == vs[i] by {
            assert(b.subrange(4 * i, 4 * i + 4) =~= rest.subrange(4 * (i - 1), 4 * (i - 1) + 4));
            assert(spec_u32s_from(e, rest)[i - 1] == vs.drop_first()[i - 1]);
        }
    }
}

/// Decoding the flat serialisation of 64-bit words yields the words back.
pub proof fn lemma_u64s_roundtrip(e: Endian, vs: Seq<u64>)
    ensures
        spec_u64s_from(e, spec_u64s_bytes(e, vs)) =~= vs,
    decreases vs.len(),
{
    lemma_u64s_bytes_len(e, vs);
    if vs.len() > 0 {
        let b = spec_u64s_bytes(e, vs);
        let rest = spec_u64s_bytes(e, vs.drop_first());
        lemma_u64s_bytes_len(e, vs.drop_first());
        lemma_u64s_roundtrip(e, vs.drop_first());
        lemma_u64_roundtrip(e, vs[0]);
        assert(b.subrange(0, 8) =~= spec_u64_bytes(e, vs[0]));
        assert forall|i: int| 1 <= i < vs.len() implies spec_u64_from(
            e,
            b.subrange(8 * i, 8 * i + 8),
        ) == vs[i] by {
            assert(b.subrange(8 * i, 8 * i + 8) =~= rest.subrange(8 * (i - 1), 8 * (i - 1) + 8));
            assert(spec_u64s_from(e, rest)[i - 1] == vs.drop_first()[i - 1]);
        }
    }
}

// ---------------------------------------------------------------------------
// Maps between signed and unsigned element sequences, and rational pairs.
// ---------------------------------------------------------------------------

/// The unsigned reinterpretations of a sequence of signed 16-bit values.
pub open spec fn spec_i16s_words(vs: Seq<i16>) -> Seq<u16> {
    Seq::new(vs.len(), |i: int| spec_u16_from_i16(vs[i]))
}

/// The unsigned reinterpretations of a sequence of signed 32-bit values.
pub open spec fn spec_i32s_words(vs: Seq<i32>) -> Seq<u32> {
    Seq::new(vs.len(), |i: int| spec_u32_from_i32(vs[i]))
}

/// The unsigned reinterpretations of a sequence of signed bytes.
pub open spec fn spec_i8s_words(vs: Seq<i8>) -> Seq<u8> {
    Seq::new(vs.len(), |i: int| spec_u8_from_i8(vs[i]))
}

/// The interleaved word sequence of a sequence of unsigned rational pairs:
/// numerator then denominator for each element.
pub open spec fn spec_pairs_words(ps: Seq<(u32, u32)>) -> Seq<u32>
    decreases ps.len(),
{
    if ps.len() == 0 {
        Seq::empty()
    } else {
        seq![ps[0].0, ps[0].1] + spec_pairs_words(ps.drop_first())
    }
}

/// The unsigned reinterpretations of signed rational pairs.
pub open spec fn spec_ipairs_words(ps: Seq<(i32, i32)>) -> Seq<(u32, u32)> {
    Seq::new(ps.len(), |i: int| (spec_u32_from_i32(ps[i].0), spec_u32_from_i32(ps[i].1)))
}

/// The pairs stored in consecutive 2-word groups.
pub open spec fn spec_words_pairs(ws: Seq<u32>) -> Seq<(u32, u32)> {
    Seq::new((ws.len() / 2) as nat, |i: int| (ws[2 * i], ws[2 * i + 1]))
}

pub proof fn lemma_pairs_words_len(ps: Seq<(u32, u32)>)
    ensures
        spec_pairs_words(ps).len() == 2 * ps.len(),
    decreases ps.len(),
{
    if ps.len() > 0 {
        lemma_pairs_words_len(ps.drop_first());
    }
}

/// Appending one pair appends its two words.
pub proof fn lemma_pairs_words_push(ps: Seq<(u32, u32)>, p: (u32, u32))
    ensures
        spec_pairs_words(ps.push(p)) =~= spec_pairs_words(ps) + seq![p.0, p.1],
    decreases ps.len(),
{
    if ps.len() == 0 {
        assert(ps.push(p).drop_first() =~= ps);
        assert(ps.push(p)[0] == p);
        assert(spec_pairs_words(ps.push(p)) =~= seq![p.0, p.1] + spec_pairs_words(ps));
    } else {
        assert(ps.push(p).drop_first() =~= ps.drop_first().push(p));
        lemma_pairs_words_push(ps.drop_first(), p);
    }
}

/// Regrouping the interleaved words of rational pairs yields the pairs back.
pub proof fn lemma_pairs_roundtrip(ps: Seq<(u32, u32)>)
    ensures
        spec_words_pairs(spec_pairs_words(ps)) =~= ps,
    decreases ps.len(),
{
    lemma_pairs_words_len(ps);
    if ps.len() > 0 {
        let ws = spec_pairs_words(ps);
        let rest = spec_pairs_words(ps.drop_first());
        lemma_pairs_words_len(ps.drop_first());
        lemma_pairs_roundtrip(ps.drop_first());
        assert forall|i: int| 1 <= i < ps.len() implies (ws[2 * i], ws[2 * i + 1]) == ps[i] by {
            assert(ws[2 * i] == rest[2 * (i - 1)]);
            assert(ws[2 * i + 1] == rest[2 * (i - 1) + 1]);
            assert(spec_words_pairs(rest)[i - 1] == ps.drop_first()[i - 1]);
        }
    }
}

// ---------------------------------------------------------------------------
// ASCII packing: NUL-terminated concatenation, split on NUL.
// ---------------------------------------------------------------------------

/// The bytes of an ASCII character sequence, one byte per character.
pub open spec fn spec_str_bytes(s: Seq<char>) -> Seq<u8> {
    Seq::new(s.len(), |i: int| s[i] as u8)
}

/// An encodable string: every character is 7-bit ASCII and none is NUL
/// (NUL is the terminator on the wire and cannot occur inside a string).
pub open spec fn spec_str_ok(s: Seq<char>) -> bool {
    forall|i: int| 0 <= i < s.len() ==> ((#[trigger] s[i]) as u32 > 0 && (s[i] as u32) < 0x80)
}

/// For a 7-bit character, the byte cast preserves the code point and the
/// character cast inverts it.
proof fn lemma_char_byte(c: char)
    requires
        (c as u32) < 0x80,
    ensures
        (c as u8) as u32 == c as u32,
        (c as u8) as char == c,
{
    assert((c as u8) == (c as u32) as u8);
    vstd::utf8::char_u32_cast(c, c as u32);
    let b = c as u8;
    assert(b as u32 == c as u32);
    assert(b as char == (b as u32) as char);
    assert((b as u32) as char == (c as u32) as char);
}

/// An encodable string list: every string is encodable.
pub open spec fn spec_ascii_ok(ss: Seq<Seq<char>>) -> bool {
    forall|i: int| 0 <= i < ss.len() ==> spec_str_ok(#[trigger] ss[i])
}

/// The packed wire bytes of a string list: each string's bytes followed by a
/// NUL terminator.
pub open spec fn spec_ascii_bytes(ss: Seq<Seq<char>>) -> Seq<u8>
    decreases ss.len(),
{
    if ss.len() == 0 {
        Seq::empty()
    } else {
        spec_str_bytes(ss[0]) + seq![0u8] + spec_ascii_bytes(ss.drop_first())
    }
}

/// The characters of a byte sequence, one character per byte.
pub open spec fn spec_bytes_chars(b: Seq<u8>) -> Seq<char> {
    Seq::new(b.len(), |i: int| b[i] as char)
}

/// Splitting packed bytes on NUL: each NUL terminates a string, and a
/// trailing run without a terminator still yields a string.  Empty input
/// yields no strings.
pub open spec fn spec_split_ascii(b: Seq<u8>) -> Seq<Seq<char>>
    decreases b.len(),
{
    if b.len() == 0 {
        Seq::empty()
    } else if b[0] == 0 {
        seq![Seq::<char>::empty()] + spec_split_ascii(b.drop_first())
    } else if b.len() == 1 {
        seq![seq![b[0] as char]]
    } else {
        let rest = spec_split_ascii(b.drop_first());
        seq![seq![b[0] as char] + rest[0]] + rest.drop_first()
    }
}

/// A nonempty byte sequence splits into at least one string.
pub proof fn lemma_split_ascii_len(b: Seq<u8>)
    ensures
        b.len() > 0 ==> spec_split_ascii(b).len() >= 1,
    decreases b.len(),
{
    if b.len() > 0 {
        lemma_split_ascii_len(b.drop_first());
    }
}

/// Splitting the bytes of an encodable string followed by more bytes
/// prepends the string to the first piece of the split of the rest.
pub proof fn lemma_split_ascii_prepend(s: Seq<char>, w: Seq<u8>)
    requires
        spec_str_ok(s),
        w.len() > 0,
    ensures
        spec_split_ascii(spec_str_bytes(s) + w) =~~= seq![s + spec_split_ascii(w)[0]]
            + spec_split_ascii(w).drop_first(),
    decreases s.len(),
{
    lemma_split_ascii_len(w);
    if s.len() == 0 {
        assert(spec_str_bytes(s) + w =~= w);
        assert(seq![s + spec_split_ascii(w)[0]] + spec_split_ascii(w).drop_first() =~~=
            spec_split_ascii(w));
    } else {
        let b = spec_str_bytes(s) + w;
        let c = s[0];
        assert(c as u32 > 0 && (c as u32) < 0x80);
        lemma_char_byte(c);
        assert(b[0] == c as u8);
        assert(b[0] != 0);
        assert(b.len() > 1);
        assert(b.drop_first() =~= spec_str_bytes(s.drop_first()) + w);
        lemma_split_ascii_prepend(s.drop_first(), w);
        let rest = spec_split_ascii(b.drop_first());
        assert(rest =~~= seq![s.drop_first() + spec_split_ascii(w)[0]] + spec_split_ascii(
            w,
        ).drop_first());
        assert((b[0] as char) == c) by {
            vstd::utf8::char_u32_cast(c, c as u32);
            assert((c as u8) as char == (c as u32) as char) by {
                assert((c as u8) == (c as u32) as u8);
        assert((c as u8) as u32 == c as u32);
            }
        }
        assert(seq![b[0] as char] + rest[0] =~= s + spec_split_ascii(w)[0]);
        assert(rest.drop_first() =~~= spec_split_ascii(w).drop_first());
    }
}

/// Splitting the packed bytes of an encodable string list yields the list
/// back.
pub proof fn lemma_ascii_roundtrip(ss: Seq<Seq<char>>)
    requires
        spec_ascii_ok(ss),
    ensures
        spec_split_ascii(spec_ascii_bytes(ss)) =~~= ss,
    decreases ss.len(),
{
    if ss.len() > 0 {
        let w = seq![0u8] + spec_ascii_bytes(ss.drop_first());
        assert(spec_ascii_bytes(ss) =~= spec_str_bytes(ss[0]) + w);
        lemma_split_ascii_prepend(ss[0], w);
        assert(w[0] == 0);
        assert(w.drop_first() =~= spec_ascii_bytes(ss.drop_first()));
        assert(spec_split_ascii(w) =~~= seq![Seq::<char>::empty()] + spec_split_ascii(
            spec_ascii_bytes(ss.drop_first()),
        ));
        lemma_ascii_roundtrip(ss.drop_first());
        assert(ss[0] + spec_split_ascii(w)[0] =~= ss[0]);
        assert(spec_split_ascii(w).drop_first() =~~= ss.drop_first());
        assert(spec_split_ascii(spec_ascii_bytes(ss)) =~~= seq![ss[0]] + ss.drop_first());
        assert(seq![ss[0]] + ss.drop_first() =~~= ss);
    }
}

/// The packed bytes of an encodable string list are all 7-bit.
pub proof fn lemma_ascii_bytes_seven_bit(ss: Seq<Seq<char>>)
    requires
        spec_ascii_ok(ss),
    ensures
        forall|i: int|
            0 <= i < spec_ascii_bytes(ss).len() ==> (#[trigger] spec_ascii_bytes(ss)[i]) < 0x80,
    decreases ss.len(),
{
    if ss.len() > 0 {
        lemma_ascii_bytes_seven_bit(ss.drop_first());
        let head = spec_str_bytes(ss[0]);
        assert forall|i: int| 0 <= i < head.len() implies (#[trigger] head[i]) < 0x80 by {
            let ch = ss[0][i];
            assert(spec_str_ok(ss[0]));
            assert(ch as u32 > 0 && (ch as u32) < 0x80);
            lemma_char_byte(ch);
            assert(head[i] == ch as u8);
        }
        let all = spec_ascii_bytes(ss);
        let rest = spec_ascii_bytes(ss.drop_first());
        assert(all =~= head + seq![0u8] + rest);
        assert forall|i: int| 0 <= i < all.len() implies (#[trigger] all[i]) < 0x80 by {
            if i < head.len() {
                assert(all[i] == head[i]);
            } else if i == head.len() {
                assert(all[i] == 0);
            } else {
                assert(all[i] == rest[i - head.len() - 1]);
            }
        }
    }
}

// ---------------------------------------------------------------------------
// Whole-value encode and decode at the specification level.
// ---------------------------------------------------------------------------

/// The element count stored in the wire entry: the number of elements, where
/// for ASCII an element is one packed byte (terminators included).
pub open spec fn spec_count(v: ValueView) -> nat {
    match v {
        ValueView::Byte(b) => b.len(),
        ValueView::Ascii(ss) => spec_ascii_bytes(ss).len(),
        ValueView::Short(s) => s.len(),
        ValueView::Long(l) => l.len(),
        ValueView::Rational(p) => p.len(),
        ValueView::SByte(s) => s.len(),
        ValueView::Undefined(b) => b.len(),
        ValueView::SShort(s) => s.len(),
        ValueView::SLong(l) => l.len(),
        ValueView::SRational(p) => p.len(),
        ValueView::Float(f) => f.len(),
        ValueView::Double(d) => d.len(),
    }
}

/// The flat wire payload of a value under the given byte order.
pub open spec fn spec_payload(e: Endian, v: ValueView) -> Seq<u8> {
    match v {
        ValueView::Byte(b) => b,
        ValueView::Ascii(ss) => spec_ascii_bytes(ss),
        ValueView::Short(s) => spec_u16s_bytes(e, s),
        ValueView::Long(l) => spec_u32s_bytes(e, l),
        ValueView::Rational(p) => spec_u32s_bytes(e, spec_pairs_words(p)),
        ValueView::SByte(s) => spec_i8s_words(s),
        ValueView::Undefined(b) => b,
        ValueView::SShort(s) => spec_u16s_bytes(e, spec_i16s_words(s)),
        ValueView::SLong(l) => spec_u32s_bytes(e, spec_i32s_words(l)),
        ValueView::SRational(p) => spec_u32s_bytes(e, spec_pairs_words(spec_ipairs_words(p))),
        ValueView::Float(f) => spec_u32s_bytes(e, f),
        ValueView::Double(d) => spec_u64s_bytes(e, d),
    }
}

/// Whether a value can be encoded: every variant can, except an ASCII list
/// holding a non-ASCII or NUL character.
pub open spec fn spec_encodable(v: ValueView) -> bool {
    match v {
        ValueView::Ascii(ss) => spec_ascii_ok(ss),
        _ => true,
    }
}

/// The payload length always equals count times element width.
pub proof fn lemma_payload_len(e: Endian, v: ValueView)
    ensures
        spec_payload(e, v).len() == spec_count(v) * spec_element_width(spec_type_code(v)),
{
    match v {
        ValueView::Short(s) => lemma_u16s_bytes_len(e, s),
        ValueView::Long(l) => lemma_u32s_bytes_len(e, l),
        ValueView::Rational(p) => {
            lemma_pairs_words_len(p);
            lemma_u32s_bytes_len(e, spec_pairs_words(p));
        },
        ValueView::SShort(s) => lemma_u16s_bytes_len(e, spec_i16s_words(s)),
        ValueView::SLong(l) => lemma_u32s_bytes_len(e, spec_i32s_words(l)),
        ValueView::SRational(p) => {
            lemma_pairs_words_len(spec_ipairs_words(p));
            lemma_u32s_bytes_len(e, spec_pairs_words(spec_ipairs_words(p)));
        },
        ValueView::Float(f) => lemma_u32s_bytes_len(e, f),
        ValueView::Double(d) => lemma_u64s_bytes_len(e, d),
        _ => {},
    }
}

/// Decoding a payload under a wire type code.  ASCII decoding fails (`None`)
/// when a byte is outside the 7-bit range; every other type decodes totally.
/// Unknown type codes decode as `Undefined` with the raw bytes preserved.
pub open spec fn spec_decode_value(e: Endian, t: u16, b: Seq<u8>) -> Option<ValueView> {
    if t == 1 {
        Some(ValueView::Byte(b))
    } else if t == 2 {
        if forall|i: int| 0 <= i < b.len() ==> (#[trigger] b[i]) < 0x80 {
            Some(ValueView::Ascii(spec_split_ascii(b)))
        } else {
            None
        }
    } else if t == 3 {
        Some(ValueView::Short(spec_u16s_from(e, b)))
    } else if t == 4 {
        Some(ValueView::Long(spec_u32s_from(e, b)))
    } else if t == 5 {
        Some(ValueView::Rational(spec_words_pairs(spec_u32s_from(e, b))))
    } else if t == 6 {
        Some(ValueView::SByte(Seq::new(b.len(), |i: int| spec_i8_from_u8(b[i]))))
    } else if t == 8 {
        Some(
            ValueView::SShort(
                Seq::new(
                    spec_u16s_from(e, b).len(),
                    |i: int| spec_i16_from_u16(spec_u16s_from(e, b)[i]),
                ),
            ),
        )
    } else if t == 9 {
        Some(
            ValueView::SLong(
                Seq::new(
                    spec_u32s_from(e, b).len(),
                    |i: int| spec_i32_from_u32(spec_u32s_from(e, b)[i]),
                ),
            ),
        )
    } else if t == 10 {
        Some(
            ValueView::SRational(
                Seq::new(
                    spec_words_pairs(spec_u32s_from(e, b)).len(),
                    |i: int|
                        (
                            spec_i32_from_u32(spec_words_pairs(spec_u32s_from(e, b))[i].0),
                            spec_i32_from_u32(spec_words_pairs(spec_u32s_from(e, b))[i].1),
                        ),
                ),
            ),
        )
    } else if t == 11 {
        Some(ValueView::Float(spec_u32s_from(e, b)))
    } else if t == 12 {
        Some(ValueView::Double(spec_u64s_from(e, b)))
    } else {
        Some(ValueView::Undefined(b))
    }
}

/// Decoding the payload of an encodable value under its own type code yields
/// the value back, under either byte order.
pub proof fn lemma_value_roundtrip(e: Endian, v: ValueView)
    requires
        spec_encodable(v),
    ensures
        spec_decode_value(e, spec_type_code(v), spec_payload(e, v)) == Some(v),
{
    match v {
        ValueView::Byte(b) => {},
        ValueView::Ascii(ss) => {
            lemma_ascii_bytes_seven_bit(ss);
            lemma_ascii_roundtrip(ss);
            assert(spec_split_ascii(spec_ascii_bytes(ss)) =~~= ss);
        },
        ValueView::Short(s) => {
            lemma_u16s_roundtrip(e, s);
            assert(spec_u16s_from(e, spec_u16s_bytes(e, s)) =~= s);
        },
        ValueView::Long(l) => {
            lemma_u32s_roundtrip(e, l);
            assert(spec_u32s_from(e, spec_u32s_bytes(e, l)) =~= l);
        },
        ValueView::Rational(p) => {
            lemma_u32s_roundtrip(e, spec_pairs_words(p));
            lemma_pairs_roundtrip(p);
            assert(spec_words_pairs(spec_u32s_from(e, spec_u32s_bytes(e, spec_pairs_words(p))))
                =~= p);
        },
        ValueView::SByte(s) => {
            let b = spec_i8s_words(s);
            assert(Seq::new(b.len(), |i: int| spec_i8_from_u8(b[i])) =~= s);
        },
        ValueView::Undefined(b) => {},
        ValueView::SShort(s) => {
            lemma_u16s_roundtrip(e, spec_i16s_words(s));
            let ws = spec_u16s_from(e, spec_u16s_bytes(e, spec_i16s_words(s)));
            assert(ws =~= spec_i16s_words(s));
            assert(Seq::new(ws.len(), |i: int| spec_i16_from_u16(ws[i])) =~= s);
        },
        ValueView::SLong(l) => {
            lemma_u32s_roundtrip(e, spec_i32s_words(l));
            let ws = spec_u32s_from(e, spec_u32s_bytes(e, spec_i32s_words(l)));
            assert(ws =~= spec_i32s_words(l));
            assert(Seq::new(ws.len(), |i: int| spec_i32_from_u32(ws[i])) =~= l);
        },
        ValueView::SRational(p) => {
            let up = spec_ipairs_words(p);
            lemma_u32s_roundtrip(e, spec_pairs_words(up));
            lemma_pairs_roundtrip(up);
            let ps = spec_words_pairs(
                spec_u32s_from(e, spec_u32s_bytes(e, spec_pairs_words(up))),
            );
            assert(ps =~= up);
            assert(Seq::new(
                ps.len(),
                |i: int| (spec_i32_from_u32(ps[i].0), spec_i32_from_u32(ps[i].1)),
            ) =~= p);
        },
        ValueView::Float(f) => {
            lemma_u32s_roundtrip(e, f);
            assert(spec_u32s_from(e, spec_u32s_bytes(e, f)) =~= f);
        },
        ValueView::Double(d) => {
            lemma_u64s_roundtrip(e, d);
            assert(spec_u64s_from(e, spec_u64s_bytes(e, d)) =~= d);
        },
    }
}

impl TIFFValue {
    /// The wire type code of this value.
    pub fn value_type_id(&self) -> (r: u16)
        ensures
            r == spec_type_code(self@),
    {
        match self {
            TIFFValue::Byte(_) => 1,
            TIFFValue::Ascii(_) => 2,
            TIFFValue::Short(_) => 3,
            TIFFValue::Long(_) => 4,
            TIFFValue::Rational(_) => 5,
            TIFFValue::SByte(_) => 6,
            TIFFValue::Undefined(_) => 7,
            TIFFValue::SShort(_) => 8,
            TIFFValue::SLong(_) => 9,
            TIFFValue::SRational(_) => 10,
            TIFFValue::Float(_) => 11,
            TIFFValue::Double(_) => 12,
        }
    }
}


// ---------------------------------------------------------------------------
// Executable encoding.
// ---------------------------------------------------------------------------

/// Appending one string appends its bytes and a NUL terminator.
pub proof fn lemma_ascii_bytes_push(ss: Seq<Seq<char>>, s: Seq<char>)
    ensures
        spec_ascii_bytes(ss.push(s)) =~= spec_ascii_bytes(ss) + spec_str_bytes(s) + seq![0u8],
    decreases ss.len(),
{
    if ss.len() == 0 {
        assert(ss.push(s).drop_first() =~= ss);
        assert(ss.push(s)[0] == s);
        assert(spec_ascii_bytes(ss.push(s)) =~= spec_str_bytes(s) + seq![0u8] + spec_ascii_bytes(
            ss,
        ));
    } else {
        assert(ss.push(s).drop_first() =~= ss.drop_first().push(s));
        lemma_ascii_bytes_push(ss.drop_first(), s);
        assert(ss.push(s)[0] == ss[0]);
    }
}

/// A nonempty NUL-free byte run splits into exactly one string.
pub proof fn lemma_split_no_nul(b: Seq<u8>)
    requires
        b.len() > 0,
        forall|i: int| 0 <= i < b.len() ==> (#[trigger] b[i]) != 0,
    ensures
        spec_split_ascii(b) =~~= seq![spec_bytes_chars(b)],
    decreases b.len(),
{
    if b.len() == 1 {
        assert(spec_bytes_chars(b) =~= seq![b[0] as char]);
    } else {
        lemma_split_no_nul(b.drop_first());
        let rest = spec_split_ascii(b.drop_first());
        assert(rest[0] =~= spec_bytes_chars(b.drop_first()));
        assert(seq![b[0] as char] + rest[0] =~= spec_bytes_chars(b));
        assert(rest.drop_first() =~= Seq::<Seq<char>>::empty());
    }
}

/// A string whose characters are positive 7-bit code points is ASCII in the
/// sense of the standard library.
proof fn lemma_str_ok_is_ascii(s: Seq<char>)
    requires
        spec_str_ok(s),
    ensures
        vstd::utf8::is_ascii_chars(s),
{
    assert forall|i: int| 0 <= i < s.len() implies '\0' <= (#[trigger] s[i]) && s[i]
        <= '\u{7f}' by {
        let c = s[i];
        assert(c as u32 > 0 && (c as u32) < 0x80);
        lemma_char_bounds(c);
    }
}

/// A positive 7-bit code point lies between NUL and 0x7f in character order.
proof fn lemma_char_bounds(c: char)
    requires
        c as u32 > 0,
        (c as u32) < 0x80,
    ensures
        '\0' <= c,
        c <= '\u{7f}',
{
}

/// Copies a byte vector.
pub(crate) fn copy_bytes(v: &Vec<u8>) -> (r: Vec<u8>)
    ensures
        r@ == v@,
{
    let mut out: Vec<u8> = Vec::new();
    let mut i: usize = 0;
    let n = v.len();
    while i < n
        invariant
            n == v@.len(),
            i <= n,
            out@ == v@.take(i as int),
        decreases n - i,
    {
        out.push(v[i]);
        proof {
            assert(v@.take(i as int).push(v@[i as int]) =~= v@.take(i as int + 1));
        }
        i = i + 1;
    }
    proof {
        assert(v@.take(n as int) =~= v@);
    }
    out
}

/// Relies on `String::from_utf8`: bytes below 0x80 are valid UTF-8 and decode
/// to one character per byte, each with the same code point as its byte.
#[verifier::external_body]
pub(crate) fn ascii_bytes_to_string(bytes: Vec<u8>) -> (r: String)
    requires
        forall|i: int| 0 <= i < bytes@.len() ==> (#[trigger] bytes@[i]) < 0x80,
    ensures
        r@ == spec_bytes_chars(bytes@),
{
    match String::from_utf8(bytes) {
        Ok(s) => s,
        Err(_) => String::new(),
    }
}

/// Serialises 16-bit words under the given byte order.
fn encode_u16s(e: Endian, v: &Vec<u16>) -> (r: Vec<u8>)
    ensures
        r@ == spec_u16s_bytes(e, v@),
{
    let mut buf: Vec<u8> = Vec::new();
    let mut i: usize = 0;
    let n = v.len();
    while i < n
        invariant
            n == v@.len(),
            i <= n,
            buf@ == spec_u16s_bytes(e, v@.take(i as int)),
        decreases n - i,
    {
        crate::endian::push_u16(&mut buf, e, v[i]);
        proof {
            lemma_u16s_bytes_push(e, v@.take(i as int), v@[i as int]);
            assert(v@.take(i as int).push(v@[i as int]) =~= v@.take(i as int + 1));
        }
        i = i + 1;
    }
    proof {
        assert(v@.take(n as int) =~= v@);
    }
    buf
}

/// Serialises signed 16-bit values through their unsigned reinterpretation.
fn encode_i16s(e: Endian, v: &Vec<i16>) -> (r: Vec<u8>)
    ensures
        r@ == spec_u16s_bytes(e, spec_i16s_words(v@)),
{
    let mut buf: Vec<u8> = Vec::new();
    let mut i: usize = 0;
    let n = v.len();
    while i < n
        invariant
            n == v@.len(),
            i <= n,
            buf@ == spec_u16s_bytes(e, spec_i16s_words(v@.take(i as int))),
        decreases n - i,
    {
        crate::endian::push_u16(&mut buf, e, crate::endian::u16_from_i16(v[i]));
        proof {
            lemma_u16s_bytes_push(
                e,
                spec_i16s_words(v@.take(i as int)),
                spec_u16_from_i16(v@[i as int]),
            );
            assert(spec_i16s_words(v@.take(i as int)).push(spec_u16_from_i16(v@[i as int])) =~=
                spec_i16s_words(v@.take(i as int + 1)));
        }
        i = i + 1;
    }
    proof {
        assert(v@.take(n as int) =~= v@);
    }
    buf
}

/// Serialises 32-bit words under the given byte order.
fn encode_u32s(e: Endian, v: &Vec<u32>) -> (r: Vec<u8>)
    ensures
        r@ == spec_u32s_bytes(e, v@),
{
    let mut buf: Vec<u8> = Vec::new();
    let mut i: usize = 0;
    let n = v.len();
    while i < n
        invariant
            n == v@.len(),
            i <= n,
            buf@ == spec_u32s_bytes(e, v@.take(i as int)),
        decreases n - i,
    {
        crate::endian::push_u32(&mut buf, e, v[i]);
        proof {
            lemma_u32s_bytes_push(e, v@.take(i as int), v@[i as int]);
            assert(v@.take(i as int).push(v@[i as int]) =~= v@.take(i as int + 1));
        }
        i = i + 1;
    }
    proof {
        assert(v@.take(n as int) =~= v@);
    }
    buf
}

/// Serialises signed 32-bit values through their unsigned reinterpretation.
fn encode_i32s(e: Endian, v: &Vec<i32>) -> (r: Vec<u8>)
    ensures
        r@ == spec_u32s_bytes(e, spec_i32s_words(v@)),
{
    let mut buf: Vec<u8> = Vec::new();
    let mut i: usize = 0;
    let n = v.len();
    while i < n
        invariant
            n == v@.len(),
            i <= n,
            buf@ == spec_u32s_bytes(e, spec_i32s_words(v@.take(i as int))),
        decreases n - i,
    {
        crate::endian::push_u32(&mut buf, e, crate::endian::u32_from_i32(v[i]));
        proof {
            lemma_u32s_bytes_push(
                e,
                spec_i32s_words(v@.take(i as int)),
                spec_u32_from_i32(v@[i as int]),
            );
            assert(spec_i32s_words(v@.take(i as int)).push(spec_u32_from_i32(v@[i as int])) =~=
                spec_i32s_words(v@.take(i as int + 1)));
        }
        i = i + 1;
    }
    proof {
        assert(v@.take(n as int) =~= v@);
    }
    buf
}

/// Serialises 64-bit words under the given byte order.
fn encode_u64s(e: Endian, v: &Vec<u64>) -> (r: Vec<u8>)
    ensures
        r@ == spec_u64s_bytes(e, v@),
{
    let mut buf: Vec<u8> = Vec::new();
    let mut i: usize = 0;
    let n = v.len();
    while i < n
        invariant
            n == v@.len(),
            i <= n,
            buf@ == spec_u64s_bytes(e, v@.take(i as int)),
        decreases n - i,
    {
        crate::endian::push_u64(&mut buf, e, v[i]);
        proof {
            lemma_u64s_bytes_push(e, v@.take(i as int), v@[i as int]);
            assert(v@.take(i as int).push(v@[i as int]) =~= v@.take(i as int + 1));
        }
        i = i + 1;
    }
    proof {
        assert(v@.take(n as int) =~= v@);
    }
    buf
}

/// The pair view of a vector of rationals.
pub open spec fn spec_rational_pairs(v: Seq<Rational<u32>>) -> Seq<(u32, u32)> {
    Seq::new(v.len(), |i: int| (v[i].num, v[i].denom))
}

/// The pair view of a vector of signed rationals.
pub open spec fn spec_srational_pairs(v: Seq<Rational<i32>>) -> Seq<(i32, i32)> {
    Seq::new(v.len(), |i: int| (v[i].num, v[i].denom))
}

/// Serialises unsigned rationals: numerator then denominator per element.
fn encode_rationals(e: Endian, v: &Vec<Rational<u32>>) -> (r: Vec<u8>)
    ensures
        r@ == spec_u32s_bytes(e, spec_pairs_words(spec_rational_pairs(v@))),
{
    let mut buf: Vec<u8> = Vec::new();
    let mut i: usize = 0;
    let n = v.len();
    while i < n
        invariant
            n == v@.len(),
            i <= n,
            buf@ == spec_u32s_bytes(e, spec_pairs_words(spec_rational_pairs(v@.take(i as int)))),
        decreases n - i,
    {
        let el = v[i];
        crate::endian::push_u32(&mut buf, e, el.num);
        crate::endian::push_u32(&mut buf, e, el.denom);
        proof {
            let ws = spec_pairs_words(spec_rational_pairs(v@.take(i as int)));
            lemma_u32s_bytes_push(e, ws, el.num);
            lemma_u32s_bytes_push(e, ws.push(el.num), el.denom);
            lemma_pairs_words_push(spec_rational_pairs(v@.take(i as int)), (el.num, el.denom));
            assert(ws.push(el.num).push(el.denom) =~= ws + seq![el.num, el.denom]);
            assert(spec_rational_pairs(v@.take(i as int)).push((el.num, el.denom)) =~=
                spec_rational_pairs(v@.take(i as int + 1)));
        }
        i = i + 1;
    }
    proof {
        assert(v@.take(n as int) =~= v@);
    }
    buf
}

/// Serialises signed rationals through their unsigned reinterpretations.
fn encode_srationals(e: Endian, v: &Vec<Rational<i32>>) -> (r: Vec<u8>)
    ensures
        r@ == spec_u32s_bytes(e, spec_pairs_words(spec_ipairs_words(spec_srational_pairs(v@)))),
{
    let mut buf: Vec<u8> = Vec::new();
    let mut i: usize = 0;
    let n = v.len();
    while i < n
        invariant
            n == v@.len(),
            i <= n,
            buf@ == spec_u32s_bytes(
                e,
                spec_pairs_words(spec_ipairs_words(spec_srational_pairs(v@.take(i as int)))),
            ),
        decreases n - i,
    {
        let el = v[i];
        let un = crate::endian::u32_from_i32(el.num);
        let ud = crate::endian::u32_from_i32(el.denom);
        crate::endian::push_u32(&mut buf, e, un);
        crate::endian::push_u32(&mut buf, e, ud);
        proof {
            let ups = spec_ipairs_words(spec_srational_pairs(v@.take(i as int)));
            let ws = spec_pairs_words(ups);
            lemma_u32s_bytes_push(e, ws, un);
            lemma_u32s_bytes_push(e, ws.push(un), ud);
            lemma_pairs_words_push(ups, (un, ud));
            assert(ws.push(un).push(ud) =~= ws + seq![un, ud]);
            assert(ups.push((un, ud)) =~= spec_ipairs_words(
                spec_srational_pairs(v@.take(i as int + 1)),
            ));
        }
        i = i + 1;
    }
    proof {
        assert(v@.take(n as int) =~= v@);
    }
    buf
}

/// Serialises signed bytes through their unsigned reinterpretation.
fn encode_sbytes(v: &Vec<i8>) -> (r: Vec<u8>)
    ensures
        r@ == spec_i8s_words(v@),
{
    let mut buf: Vec<u8> = Vec::new();
    let mut i: usize = 0;
    let n = v.len();
    while i < n
        invariant
            n == v@.len(),
            i <= n,
            buf@.len() == i as int,
            forall|k: int| 0 <= k < i ==> #[trigger] buf@[k] == spec_u8_from_i8(v@[k]),
        decreases n - i,
    {
        buf.push(crate::endian::u8_from_i8(v[i]));
        i = i + 1;
    }
    proof {
        assert(buf@ =~= spec_i8s_words(v@));
    }
    buf
}

/// Packs a string list as NUL-terminated 7-bit bytes; rejects a list holding
/// a non-ASCII or NUL character with an encoding error.
fn encode_ascii(v: &Vec<String>) -> (r: Result<Vec<u8>, TiffError>)
    ensures
        match r {
            Ok(b) => spec_ascii_ok(v.deep_view()) && b@ == spec_ascii_bytes(v.deep_view()),
            Err(e) => e == TiffError::EncodingError && !spec_ascii_ok(v.deep_view()),
        },
{
    broadcast use vstd::string::is_ascii_spec_bytes;

    let ghost vd = v.deep_view();
    let mut buf: Vec<u8> = Vec::new();
    let mut i: usize = 0;
    let n = v.len();
    proof {
        assert(vd.len() == v@.len());
    }
    while i < n
        invariant
            n == v@.len(),
            i <= n,
            vd == v.deep_view(),
            vd.len() == n as int,
            forall|k: int| 0 <= k < vd.len() ==> #[trigger] vd[k] == v@[k]@,
            forall|k: int| 0 <= k < i ==> spec_str_ok(#[trigger] vd[k]),
            buf@ == spec_ascii_bytes(vd.take(i as int)),
        decreases n - i,
    {
        let s = &v[i];
        if !s.is_ascii() {
            proof {
                assert(!vstd::utf8::is_ascii_chars(s@));
                assert(vd[i as int] == s@);
                if spec_str_ok(s@) {
                    lemma_str_ok_is_ascii(s@);
                }
                assert(!spec_str_ok(vd[i as int]));
                assert(!spec_ascii_ok(vd));
            }
            return Err(TiffError::EncodingError);
        }
        let bytes = s.as_bytes_vec();
        proof {
            assert(vstd::utf8::is_ascii_chars(s@));
            vstd::utf8::is_ascii_chars_encode_utf8(s@);
            assert(bytes@ =~= spec_str_bytes(s@));
        }
        let m = bytes.len();
        let mut j: usize = 0;
        while j < m
            invariant
                m == bytes@.len(),
                j <= m,
                vd == v.deep_view(),
                bytes@ == spec_str_bytes(vd[i as int]),
                i < n,
                vd.len() == n as int,
                vstd::utf8::is_ascii_chars(vd[i as int]),
                forall|k: int| 0 <= k < j ==> (#[trigger] bytes@[k]) != 0,
            decreases m - j,
        {
            if bytes[j] == 0 {
                proof {
                    let c = vd[i as int][j as int];
                    vstd::utf8::is_ascii_chars_nat_bound(vd[i as int]);
                    assert((c as nat) < 128);
                    assert((c as u32) < 0x80);
                    lemma_char_byte(c);
                    assert(c as u32 == 0);
                    assert(!spec_str_ok(vd[i as int]));
                    assert(!spec_ascii_ok(vd));
                }
                return Err(TiffError::EncodingError);
            }
            j = j + 1;
        }
        proof {
            let str_i = vd[i as int];
            assert forall|k: int| 0 <= k < str_i.len() implies ((#[trigger] str_i[k]) as u32 > 0
                && (str_i[k] as u32) < 0x80) by {
                vstd::utf8::is_ascii_chars_nat_bound(str_i);
                assert((str_i[k] as nat) < 128);
                lemma_char_byte(str_i[k]);
                assert(bytes@[k] != 0);
            }
            assert(spec_str_ok(str_i));
        }
        let mut k: usize = 0;
        while k < m
            invariant
                m == bytes@.len(),
                k <= m,
                buf@ == spec_ascii_bytes(vd.take(i as int)) + bytes@.take(k as int),
            decreases m - k,
        {
            buf.push(bytes[k]);
            proof {
                assert(spec_ascii_bytes(vd.take(i as int)) + bytes@.take(k as int) + seq![bytes@[k as int]]
                    =~= spec_ascii_bytes(vd.take(i as int)) + bytes@.take(k as int + 1));
            }
            k = k + 1;
        }
        buf.push(0);
        proof {
            lemma_ascii_bytes_push(vd.take(i as int), vd[i as int]);
            assert(vd.take(i as int).push(vd[i as int]) =~= vd.take(i as int + 1));
            assert(bytes@.take(m as int) =~= bytes@);
            assert(buf@ =~= spec_ascii_bytes(vd.take(i as int)) + spec_str_bytes(vd[i as int])
                + seq![0u8]);
            assert(buf@ =~= spec_ascii_bytes(vd.take(i as int + 1)));
        }
        i = i + 1;
    }
    proof {
        assert(vd.take(n as int) =~= vd);
    }
    Ok(buf)
}

impl TIFFValue {
    /// Serialises this value under the given byte order into the wire triple:
    /// the element count and the flat payload (the type code comes from
    /// `value_type_id`).  Rejects an ASCII list holding a non-ASCII or NUL
    /// character with an encoding error, and a value with more elements than
    /// the 32-bit count field can carry with an out-of-bounds error.
    pub fn encode_payload(&self, endian: Endian) -> (r: Result<(u32, Vec<u8>), TiffError>)
        ensures
            match r {
                Ok((count, payload)) => {
                    &&& spec_encodable(self@)
                    &&& spec_count(self@) <= u32::MAX
                    &&& count == spec_count(self@)
                    &&& payload@ == spec_payload(endian, self@)
                },
                Err(e) => {
                    &&& (e == TiffError::EncodingError || e == TiffError::OutOfBounds)
                    &&& (e == TiffError::EncodingError ==> !spec_encodable(self@))
                    &&& (e == TiffError::OutOfBounds ==> spec_count(self@) > u32::MAX)
                },
            },
    {
        let payload: Vec<u8> = match self {
            TIFFValue::Byte(v) => copy_bytes(v),
            TIFFValue::Ascii(v) => {
                match encode_ascii(v) {
                    Ok(b) => b,
                    Err(e) => {
                        return Err(e);
                    },
                }
            },
            TIFFValue::Short(v) => encode_u16s(endian, v),
            TIFFValue::Long(v) => encode_u32s(endian, v),
            TIFFValue::Rational(v) => {
                let b = encode_rationals(endian, v);
                proof {
                    assert(spec_rational_pairs(v@) =~= (match self@ {
                        ValueView::Rational(p) => p,
                        _ => Seq::empty(),
                    }));
                }
                b
            },
            TIFFValue::SByte(v) => encode_sbytes(v),
            TIFFValue::Undefined(v) => copy_bytes(v),
            TIFFValue::SShort(v) => encode_i16s(endian, v),
            TIFFValue::SLong(v) => encode_i32s(endian, v),
            TIFFValue::SRational(v) => {
                let b = encode_srationals(endian, v);
                proof {
                    assert(spec_srational_pairs(v@) =~= (match self@ {
                        ValueView::SRational(p) => p,
                        _ => Seq::empty(),
                    }));
                }
                b
            },
            TIFFValue::Float(v) => encode_u32s(endian, v),
            TIFFValue::Double(v) => encode_u64s(endian, v),
        };
        let count: usize = match self {
            TIFFValue::Ascii(_) => payload.len(),
            TIFFValue::Byte(v) => v.len(),
            TIFFValue::Short(v) => v.len(),
            TIFFValue::Long(v) => v.len(),
            TIFFValue::Rational(v) => v.len(),
            TIFFValue::SByte(v) => v.len(),
            TIFFValue::Undefined(v) => v.len(),
            TIFFValue::SShort(v) => v.len(),
            TIFFValue::SLong(v) => v.len(),
            TIFFValue::SRational(v) => v.len(),
            TIFFValue::Float(v) => v.len(),
            TIFFValue::Double(v) => v.len(),
        };
        if count as u64 > 0xFFFF_FFFFu64 {
            return Err(TiffError::OutOfBounds);
        }
        Ok((count as u32, payload))
    }
}


// ---------------------------------------------------------------------------
// Executable decoding.
// ---------------------------------------------------------------------------

/// A 7-bit byte turned into a character and back keeps its value.
pub proof fn lemma_byte_char_pub(v: u8)
    requires
        v < 0x80,
    ensures
        (v as char) as u8 == v,
        (v as char) as u32 == v as u32,
{
}

/// A 7-bit byte turned into a character and back keeps its value.
proof fn lemma_byte_char(v: u8)
    requires
        v < 0x80,
    ensures
        (v as char) as u8 == v,
        (v as char) as u32 == v as u32,
{
}

/// Reads 16-bit words from consecutive 2-byte groups.
fn decode_u16s(e: Endian, b: &Vec<u8>) -> (r: Vec<u16>)
    ensures
        r@ =~= spec_u16s_from(e, b@),
{
    let n = b.len() / 2;
    let mut out: Vec<u16> = Vec::new();
    let mut i: usize = 0;
    while i < n
        invariant
            n == b@.len() / 2,
            i <= n,
            out@.len() == i as int,
            forall|k: int|
                0 <= k < i ==> #[trigger] out@[k] == spec_u16_from(
                    e,
                    b@.subrange(2 * k, 2 * k + 2),
                ),
        decreases n - i,
    {
        let total = b.len();
        proof {
            assert(2 * (i as int) + 2 <= 2 * (n as int));
            assert(2 * (n as int) <= b@.len());
            assert(b@.len() == total as int);
        }
        let buf: [u8; 2] = [b[2 * i], b[2 * i + 1]];
        proof {
            assert(buf@ =~= b@.subrange(2 * (i as int), 2 * (i as int) + 2));
        }
        let w: u16 = e.short_from_bytes(buf);
        out.push(w);
        i = i + 1;
    }
    proof {
        assert(out@ =~= spec_u16s_from(e, b@));
    }
    out
}

/// Reads signed 16-bit values from consecutive 2-byte groups.
fn decode_i16s(e: Endian, b: &Vec<u8>) -> (r: Vec<i16>)
    ensures
        r@ =~= Seq::new(
            spec_u16s_from(e, b@).len(),
            |i: int| spec_i16_from_u16(spec_u16s_from(e, b@)[i]),
        ),
{
    let n = b.len() / 2;
    let mut out: Vec<i16> = Vec::new();
    let mut i: usize = 0;
    while i < n
        invariant
            n == b@.len() / 2,
            i <= n,
            out@.len() == i as int,
            forall|k: int|
                0 <= k < i ==> #[trigger] out@[k] == spec_i16_from_u16(
                    spec_u16_from(e, b@.subrange(2 * k, 2 * k + 2)),
                ),
        decreases n - i,
    {
        let total = b.len();
        proof {
            assert(2 * (i as int) + 2 <= 2 * (n as int));
            assert(2 * (n as int) <= b@.len());
            assert(b@.len() == total as int);
        }
        let buf: [u8; 2] = [b[2 * i], b[2 * i + 1]];
        proof {
            assert(buf@ =~= b@.subrange(2 * (i as int), 2 * (i as int) + 2));
        }
        let w: i16 = e.short_from_bytes(buf);
        out.push(w);
        i = i + 1;
    }
    proof {
        assert(out@ =~= Seq::new(
            spec_u16s_from(e, b@).len(),
            |i: int| spec_i16_from_u16(spec_u16s_from(e, b@)[i]),
        ));
    }
    out
}

/// Reads 32-bit words from consecutive 4-byte groups.
fn decode_u32s(e: Endian, b: &Vec<u8>) -> (r: Vec<u32>)
    ensures
        r@ =~= spec_u32s_from(e, b@),
{
    let n = b.len() / 4;
    let mut out: Vec<u32> = Vec::new();
    let mut i: usize = 0;
    while i < n
        invariant
            n == b@.len() / 4,
            i <= n,
            out@.len() == i as int,
            forall|k: int|
                0 <= k < i ==> #[trigger] out@[k] == spec_u32_from(
                    e,
                    b@.subrange(4 * k, 4 * k + 4),
                ),
        decreases n - i,
    {
        let total = b.len();
        proof {
            assert(4 * (i as int) + 4 <= 4 * (n as int));
            assert(4 * (n as int) <= b@.len());
            assert(b@.len() == total as int);
        }
        let buf: [u8; 4] = [b[4 * i], b[4 * i + 1], b[4 * i + 2], b[4 * i + 3]];
        proof {
            assert(buf@ =~= b@.subrange(4 * (i as int), 4 * (i as int) + 4));
        }
        let w: u32 = e.long_from_bytes(buf);
        out.push(w);
        i = i + 1;
    }
    proof {
        assert(out@ =~= spec_u32s_from(e, b@));
    }
    out
}

/// Reads signed 32-bit values from consecutive 4-byte groups.
fn decode_i32s(e: Endian, b: &Vec<u8>) -> (r: Vec<i32>)
    ensures
        r@ =~= Seq::new(
            spec_u32s_from(e, b@).len(),
            |i: int| spec_i32_from_u32(spec_u32s_from(e, b@)[i]),
        ),
{
    let n = b.len() / 4;
    let mut out: Vec<i32> = Vec::new();
    let mut i: usize = 0;
    while i < n
        invariant
            n == b@.len() / 4,
            i <= n,
            out@.len() == i as int,
            forall|k: int|
                0 <= k < i ==> #[trigger] out@[k] == spec_i32_from_u32(
                    spec_u32_from(e, b@.subrange(4 * k, 4 * k + 4)),
                ),
        decreases n - i,
    {
        let total = b.len();
        proof {
            assert(4 * (i as int) + 4 <= 4 * (n as int));
            assert(4 * (n as int) <= b@.len());
            assert(b@.len() == total as int);
        }
        let buf: [u8; 4] = [b[4 * i], b[4 * i + 1], b[4 * i + 2], b[4 * i + 3]];
        proof {
            assert(buf@ =~= b@.subrange(4 * (i as int), 4 * (i as int) + 4));
        }
        let w: i32 = e.long_from_bytes(buf);
        out.push(w);
        i = i + 1;
    }
    proof {
        assert(out@ =~= Seq::new(
            spec_u32s_from(e, b@).len(),
            |i: int| spec_i32_from_u32(spec_u32s_from(e, b@)[i]),
        ));
    }
    out
}

/// Reads 64-bit words from consecutive 8-byte groups.
fn decode_u64s(e: Endian, b: &Vec<u8>) -> (r: Vec<u64>)
    ensures
        r@ =~= spec_u64s_from(e, b@),
{
    let n = b.len() / 8;
    let mut out: Vec<u64> = Vec::new();
    let mut i: usize = 0;
    while i < n
        invariant
            n == b@.len() / 8,
            i <= n,
            out@.len() == i as int,
            forall|k: int|
                0 <= k < i ==> #[trigger] out@[k] == spec_u64_from(
                    e,
                    b@.subrange(8 * k, 8 * k + 8),
                ),
        decreases n - i,
    {
        let total = b.len();
        proof {
            assert(8 * (i as int) + 8 <= 8 * (n as int));
            assert(8 * (n as int) <= b@.len());
            assert(b@.len() == total as int);
        }
        let buf: [u8; 8] = [
            b[8 * i],
            b[8 * i + 1],
            b[8 * i + 2],
            b[8 * i + 3],
            b[8 * i + 4],
            b[8 * i + 5],
            b[8 * i + 6],
            b[8 * i + 7],
        ];
        proof {
            assert(buf@ =~= b@.subrange(8 * (i as int), 8 * (i as int) + 8));
        }
        let w: u64 = e.longlong_from_bytes(buf);
        out.push(w);
        i = i + 1;
    }
    proof {
        assert(out@ =~= spec_u64s_from(e, b@));
    }
    out
}

/// Reads unsigned rationals: two 32-bit words per element.
fn decode_rationals(e: Endian, b: &Vec<u8>) -> (r: Vec<Rational<u32>>)
    ensures
        spec_rational_pairs(r@) =~= spec_words_pairs(spec_u32s_from(e, b@)),
{
    let words = decode_u32s(e, b);
    let n = words.len() / 2;
    let mut out: Vec<Rational<u32>> = Vec::new();
    let mut i: usize = 0;
    while i < n
        invariant
            n == words@.len() / 2,
            words@ == spec_u32s_from(e, b@),
            i <= n,
            out@.len() == i as int,
            forall|k: int|
                0 <= k < i ==> #[trigger] out@[k] == (Rational {
                    num: words@[2 * k],
                    denom: words@[2 * k + 1],
                }),
        decreases n - i,
    {
        let total = words.len();
        proof {
            assert(2 * (i as int) + 2 <= 2 * (n as int));
            assert(2 * (n as int) <= words@.len());
            assert(words@.len() == total as int);
        }
        let el = Rational { num: words[2 * i], denom: words[2 * i + 1] };
        out.push(el);
        i = i + 1;
    }
    proof {
        assert(spec_rational_pairs(out@) =~= spec_words_pairs(spec_u32s_from(e, b@)));
    }
    out
}

/// Reads signed rationals: two 32-bit words per element, reinterpreted.
fn decode_srationals(e: Endian, b: &Vec<u8>) -> (r: Vec<Rational<i32>>)
    ensures
        spec_srational_pairs(r@) =~= Seq::new(
            spec_words_pairs(spec_u32s_from(e, b@)).len(),
            |i: int|
                (
                    spec_i32_from_u32(spec_words_pairs(spec_u32s_from(e, b@))[i].0),
                    spec_i32_from_u32(spec_words_pairs(spec_u32s_from(e, b@))[i].1),
                ),
        ),
{
    let words = decode_u32s(e, b);
    let n = words.len() / 2;
    let mut out: Vec<Rational<i32>> = Vec::new();
    let mut i: usize = 0;
    while i < n
        invariant
            n == words@.len() / 2,
            words@ == spec_u32s_from(e, b@),
            i <= n,
            out@.len() == i as int,
            forall|k: int|
                0 <= k < i ==> #[trigger] out@[k] == (Rational {
                    num: spec_i32_from_u32(words@[2 * k]),
                    denom: spec_i32_from_u32(words@[2 * k + 1]),
                }),
        decreases n - i,
    {
        let total = words.len();
        proof {
            assert(2 * (i as int) + 2 <= 2 * (n as int));
            assert(2 * (n as int) <= words@.len());
            assert(words@.len() == total as int);
        }
        let el = Rational {
            num: crate::endian::i32_from_u32(words[2 * i]),
            denom: crate::endian::i32_from_u32(words[2 * i + 1]),
        };
        out.push(el);
        i = i + 1;
    }
    proof {
        assert(spec_srational_pairs(out@) =~= Seq::new(
            spec_words_pairs(spec_u32s_from(e, b@)).len(),
            |i: int|
                (
                    spec_i32_from_u32(spec_words_pairs(spec_u32s_from(e, b@))[i].0),
                    spec_i32_from_u32(spec_words_pairs(spec_u32s_from(e, b@))[i].1),
                ),
        ));
    }
    out
}

/// Reads signed bytes.
fn decode_sbytes(b: &Vec<u8>) -> (r: Vec<i8>)
    ensures
        r@ =~= Seq::new(b@.len(), |i: int| spec_i8_from_u8(b@[i])),
{
    let n = b.len();
    let mut out: Vec<i8> = Vec::new();
    let mut i: usize = 0;
    while i < n
        invariant
            n == b@.len(),
            i <= n,
            out@.len() == i as int,
            forall|k: int| 0 <= k < i ==> #[trigger] out@[k] == spec_i8_from_u8(b@[k]),
        decreases n - i,
    {
        out.push(crate::endian::i8_from_u8(b[i]));
        i = i + 1;
    }
    proof {
        assert(out@ =~= Seq::new(b@.len(), |i: int| spec_i8_from_u8(b@[i])));
    }
    out
}

/// Splits packed 7-bit bytes into strings; rejects a byte outside the 7-bit
/// range with an ASCII format error.
fn decode_ascii(b: &Vec<u8>) -> (r: Result<Vec<String>, TiffError>)
    ensures
        match r {
            Ok(v) => {
                &&& forall|i: int| 0 <= i < b@.len() ==> (#[trigger] b@[i]) < 0x80
                &&& v.deep_view() =~~= spec_split_ascii(b@)
            },
            Err(e) => {
                &&& e == TiffError::AsciiFormat
                &&& !(forall|i: int| 0 <= i < b@.len() ==> (#[trigger] b@[i]) < 0x80)
            },
        },
{
    let n = b.len();
    let mut i: usize = 0;
    while i < n
        invariant
            n == b@.len(),
            i <= n,
            forall|k: int| 0 <= k < i ==> (#[trigger] b@[k]) < 0x80,
        decreases n - i,
    {
        if b[i] >= 0x80 {
            return Err(TiffError::AsciiFormat);
        }
        i = i + 1;
    }
    let mut res: Vec<String> = Vec::new();
    let mut pos: usize = 0;
    proof {
        assert(b@.skip(0) =~= b@);
    }
    while pos < n
        invariant
            n == b@.len(),
            pos <= n,
            forall|k: int| 0 <= k < n ==> (#[trigger] b@[k]) < 0x80,
            spec_split_ascii(b@) =~~= res.deep_view() + spec_split_ascii(b@.skip(pos as int)),
        decreases n - pos,
    {
        let ghost entry_pos = pos as int;
        let ghost old_deep = res.deep_view();
        let mut j: usize = pos;
        while j < n && b[j] != 0
            invariant
                n == b@.len(),
                entry_pos == pos as int,
                pos <= j <= n,
                forall|k: int| pos <= k < j ==> (#[trigger] b@[k]) != 0,
                forall|k: int| 0 <= k < n ==> (#[trigger] b@[k]) < 0x80,
            decreases n - j,
        {
            j = j + 1;
        }
        let mut piece: Vec<u8> = Vec::new();
        let mut k: usize = pos;
        while k < j
            invariant
                n == b@.len(),
                pos <= k <= j <= n,
                forall|q: int| 0 <= q < n ==> (#[trigger] b@[q]) < 0x80,
                piece@ == b@.subrange(pos as int, k as int),
            decreases j - k,
        {
            piece.push(b[k]);
            proof {
                assert(b@.subrange(pos as int, k as int).push(b@[k as int]) =~= b@.subrange(
                    pos as int,
                    k as int + 1,
                ));
            }
            k = k + 1;
        }
        let ghost chars = spec_bytes_chars(piece@);
        proof {
            assert forall|q: int| 0 <= q < chars.len() implies ((#[trigger] chars[q]) as u32 > 0
                && (chars[q] as u32) < 0x80) by {
                assert(piece@[q] == b@[entry_pos + q]);
                assert(piece@[q] != 0);
                assert(piece@[q] < 0x80);
                lemma_byte_char(piece@[q]);
            }
            assert(spec_str_ok(chars));
            assert forall|q: int| 0 <= q < piece@.len() implies #[trigger] spec_str_bytes(
                chars,
            )[q] == piece@[q] by {
                lemma_byte_char(piece@[q]);
            }
            assert(spec_str_bytes(chars) =~= piece@);
        }
        let s = ascii_bytes_to_string(piece);
        res.push(s);
        proof {
            assert(res.deep_view() =~~= old_deep.push(chars));
        }
        let ghost rem = b@.skip(entry_pos);
        if j < n {
            proof {
                let w = b@.skip(j as int);
                assert(rem =~= spec_str_bytes(chars) + w);
                assert(w[0] == b@[j as int]);
                assert(w[0] == 0);
                lemma_split_ascii_prepend(chars, w);
                assert(w.drop_first() =~= b@.skip(j as int + 1));
                assert(spec_split_ascii(w) =~~= seq![Seq::<char>::empty()] + spec_split_ascii(
                    b@.skip(j as int + 1),
                ));
                assert(chars + spec_split_ascii(w)[0] =~= chars);
                assert(spec_split_ascii(w).drop_first() =~~= spec_split_ascii(
                    b@.skip(j as int + 1),
                ));
                assert(spec_split_ascii(rem) =~~= seq![chars] + spec_split_ascii(
                    b@.skip(j as int + 1),
                ));
                assert(old_deep + (seq![chars] + spec_split_ascii(b@.skip(j as int + 1))) =~~=
                    old_deep.push(chars) + spec_split_ascii(b@.skip(j as int + 1)));
            }
            pos = j + 1;
        } else {
            proof {
                assert(rem =~= piece@);
                assert(rem.len() > 0);
                assert forall|q: int| 0 <= q < rem.len() implies (#[trigger] rem[q]) != 0 by {
                    assert(rem[q] == b@[entry_pos + q]);
                }
                lemma_split_no_nul(rem);
                assert(spec_bytes_chars(rem) =~= chars);
                assert(spec_split_ascii(rem) =~~= seq![chars]);
                assert(b@.skip(n as int) =~= Seq::<u8>::empty());
                assert(old_deep + seq![chars] =~~= old_deep.push(chars) + spec_split_ascii(
                    b@.skip(n as int),
                ));
            }
            pos = n;
        }
    }
    proof {
        assert(b@.skip(n as int) =~= Seq::<u8>::empty());
        assert(res.deep_view() + spec_split_ascii(b@.skip(n as int)) =~~= res.deep_view());
    }
    Ok(res)
}

impl TIFFValue {
    /// Decodes a flat payload under a wire type code and byte order.  Fails
    /// only for an ASCII payload holding a byte outside the 7-bit range;
    /// unknown type codes yield `Undefined` with the raw bytes preserved.
    pub fn decode_payload(endian: Endian, value_type: u16, payload: &Vec<u8>) -> (r: Result<
        TIFFValue,
        TiffError,
    >)
        ensures
            match r {
                Ok(v) => spec_decode_value(endian, value_type, payload@) == Some(v@),
                Err(e) => e == TiffError::AsciiFormat && spec_decode_value(
                    endian,
                    value_type,
                    payload@,
                ) is None,
            },
    {
        if value_type == 1 {
            Ok(TIFFValue::Byte(copy_bytes(payload)))
        } else if value_type == 2 {
            match decode_ascii(payload) {
                Ok(v) => {
                    let r = TIFFValue::Ascii(v);
                    proof {
                        assert(r@ == ValueView::Ascii(v.deep_view()));
                        assert(v.deep_view() =~~= spec_split_ascii(payload@));
                        assert(ValueView::Ascii(v.deep_view()) == ValueView::Ascii(
                            spec_split_ascii(payload@),
                        ));
                    }
                    Ok(r)
                },
                Err(e) => Err(e),
            }
        } else if value_type == 3 {
            let v = decode_u16s(endian, payload);
            proof {
                assert(v@ =~= spec_u16s_from(endian, payload@));
            }
            Ok(TIFFValue::Short(v))
        } else if value_type == 4 {
            Ok(TIFFValue::Long(decode_u32s(endian, payload)))
        } else if value_type == 5 {
            let v = decode_rationals(endian, payload);
            let r = TIFFValue::Rational(v);
            proof {
                assert(spec_rational_pairs(v@) =~= spec_words_pairs(
                    spec_u32s_from(endian, payload@),
                ));
            }
            Ok(r)
        } else if value_type == 6 {
            let v = decode_sbytes(payload);
            Ok(TIFFValue::SByte(v))
        } else if value_type == 8 {
            let v = decode_i16s(endian, payload);
            Ok(TIFFValue::SShort(v))
        } else if value_type == 9 {
            let v = decode_i32s(endian, payload);
            Ok(TIFFValue::SLong(v))
        } else if value_type == 10 {
            let v = decode_srationals(endian, payload);
            let r = TIFFValue::SRational(v);
            proof {
                assert(spec_srational_pairs(v@) =~= Seq::new(
                    spec_words_pairs(spec_u32s_from(endian, payload@)).len(),
                    |i: int|
                        (
                            spec_i32_from_u32(
                                spec_words_pairs(spec_u32s_from(endian, payload@))[i].0,
                            ),
                            spec_i32_from_u32(
                                spec_words_pairs(spec_u32s_from(endian, payload@))[i].1,
                            ),
                        ),
                ));
            }
            Ok(r)
        } else if value_type == 11 {
            Ok(TIFFValue::Float(decode_u32s(endian, payload)))
        } else if value_type == 12 {
            Ok(TIFFValue::Double(decode_u64s(endian, payload)))
        } else {
            Ok(TIFFValue::Undefined(copy_bytes(payload)))
        }
    }
}


// ---------------------------------------------------------------------------
// Entry-level payload extraction: the inline-versus-offset rule.
// ---------------------------------------------------------------------------

/// The width in bytes of one element of the given wire type.
pub fn element_width(t: u16) -> (r: u64)
    ensures
        r == spec_element_width(t),
{
    if t == 3 || t == 8 {
        2
    } else if t == 4 || t == 9 || t == 11 {
        4
    } else if t == 5 || t == 10 || t == 12 {
        8
    } else {
        1
    }
}

/// The payload bytes an entry refers to.  A payload of at most four bytes is
/// stored directly in the value slot, left-justified in file order; a larger
/// payload lies at the absolute offset in the slot and must lie wholly within
/// the stream (`None` otherwise).
pub open spec fn spec_entry_payload(
    data: Seq<u8>,
    e: Endian,
    value_type: u16,
    count: u32,
    value_offset: u32,
) -> Option<Seq<u8>> {
    let size = count * spec_element_width(value_type);
    if size <= 4 {
        Some(spec_u32_bytes(e, value_offset).take(size as int))
    } else if value_offset + size <= data.len() {
        Some(data.subrange(value_offset as int, value_offset + size))
    } else {
        None
    }
}

/// Extracts the payload bytes an entry refers to: from the value slot when
/// the payload fits in four bytes, otherwise from the absolute offset.
/// Fails with `UnexpectedEof` when an out-of-line payload would run past the
/// end of the stream.
fn read_payload_bytes(
    data: &Vec<u8>,
    e: Endian,
    value_type: u16,
    count: u32,
    value_offset: u32,
) -> (r: Result<Vec<u8>, TiffError>)
    ensures
        match r {
            Ok(p) => spec_entry_payload(data@, e, value_type, count, value_offset) == Some(p@),
            Err(er) => er == TiffError::UnexpectedEof && spec_entry_payload(
                data@,
                e,
                value_type,
                count,
                value_offset,
            ) is None,
        },
{
    let width = element_width(value_type);
    proof {
        assert(count as u64 <= 0xFFFF_FFFFu64);
        assert(width <= 8);
        assert((count as u64) * width <= 0xFFFF_FFFFu64 * 8) by (nonlinear_arith)
            requires
                count as u64 <= 0xFFFF_FFFFu64,
                width <= 8,
        ;
    }
    let size: u64 = (count as u64) * width;
    if size <= 4 {
        let slot = e.long_adjusted(value_offset);
        let mut out: Vec<u8> = Vec::new();
        let mut i: usize = 0;
        let m = size as usize;
        while i < m
            invariant
                m <= 4,
                i <= m,
                slot@ =~= spec_u32_bytes(e, value_offset),
                out@ == slot@.take(i as int),
            decreases m - i,
        {
            out.push(slot[i]);
            proof {
                assert(slot@.take(i as int).push(slot@[i as int]) =~= slot@.take(i as int + 1));
            }
            i = i + 1;
        }
        proof {
            assert(out@ =~= spec_u32_bytes(e, value_offset).take(size as int));
        }
        Ok(out)
    } else {
        let start: u64 = value_offset as u64;
        let data_len: u64 = data.len() as u64;
        if start > data_len || size > data_len - start {
            return Err(TiffError::UnexpectedEof);
        }
        let s: usize = start as usize;
        let m: usize = size as usize;
        let mut out: Vec<u8> = Vec::new();
        let mut i: usize = 0;
        while i < m
            invariant
                s + m <= data@.len(),
                i <= m,
                out@ == data@.subrange(s as int, s as int + i as int),
            decreases m - i,
        {
            let total = data.len();
            proof {
                assert(data@.len() == total as int);
            }
            out.push(data[s + i]);
            proof {
                assert(data@.subrange(s as int, s as int + i as int).push(
                    data@[s as int + i as int],
                ) =~= data@.subrange(s as int, s as int + i as int + 1));
            }
            i = i + 1;
        }
        proof {
            assert(out@ =~= data@.subrange(
                value_offset as int,
                value_offset + count * spec_element_width(value_type),
            ));
        }
        Ok(out)
    }
}

impl TIFFValue {
    /// Builds the typed value an entry refers to: extracts the payload bytes
    /// (inline or out-of-line) and decodes them element by element under the
    /// file's byte order.
    pub fn new_from_entry(data: &Vec<u8>, entry: &IFDEntry, endian: Endian) -> (r: Result<
        TIFFValue,
        TiffError,
    >)
        ensures
            match spec_entry_payload(
                data@,
                endian,
                entry.value_type,
                entry.count,
                entry.value_offset,
            ) {
                Some(b) => match r {
                    Ok(v) => spec_decode_value(endian, entry.value_type, b) == Some(v@),
                    Err(er) => er == TiffError::AsciiFormat && spec_decode_value(
                        endian,
                        entry.value_type,
                        b,
                    ) is None,
                },
                None => r == Err::<TIFFValue, TiffError>(TiffError::UnexpectedEof),
            },
    {
        let payload = match read_payload_bytes(
            data,
            endian,
            entry.value_type,
            entry.count,
            entry.value_offset,
        ) {
            Ok(p) => p,
            Err(er) => {
                return Err(er);
            },
        };
        TIFFValue::decode_payload(endian, entry.value_type, &payload)
    }
}


/// Splitting 7-bit bytes yields strings that can be encoded again: every
/// piece holds only positive 7-bit characters.
pub proof fn lemma_split_ascii_ok(b: Seq<u8>)
    requires
        forall|i: int| 0 <= i < b.len() ==> (#[trigger] b[i]) < 0x80,
    ensures
        spec_ascii_ok(spec_split_ascii(b)),
    decreases b.len(),
{
    if b.len() == 0 {
    } else if b[0] == 0 {
        assert forall|i: int| 0 <= i < b.drop_first().len() implies (#[trigger] b.drop_first()[i])
            < 0x80 by {
            assert(b.drop_first()[i] == b[i + 1]);
        }
        lemma_split_ascii_ok(b.drop_first());
        let whole = spec_split_ascii(b);
        let rest = spec_split_ascii(b.drop_first());
        assert forall|i: int| 0 <= i < whole.len() implies spec_str_ok(#[trigger] whole[i]) by {
            if i == 0 {
                assert(whole[0] =~= Seq::<char>::empty());
            } else {
                assert(whole[i] == rest[i - 1]);
            }
        }
    } else if b.len() == 1 {
        let c = b[0] as char;
        lemma_byte_char(b[0]);
        assert(c as u32 == b[0] as u32);
        assert(spec_str_ok(seq![c]));
    } else {
        assert forall|i: int| 0 <= i < b.drop_first().len() implies (#[trigger] b.drop_first()[i])
            < 0x80 by {
            assert(b.drop_first()[i] == b[i + 1]);
        }
        lemma_split_ascii_ok(b.drop_first());
        lemma_split_ascii_len(b.drop_first());
        let rest = spec_split_ascii(b.drop_first());
        let c = b[0] as char;
        lemma_byte_char(b[0]);
        assert(spec_str_ok(rest[0]));
        let piece = seq![c] + rest[0];
        assert forall|i: int| 0 <= i < piece.len() implies ((#[trigger] piece[i]) as u32 > 0 && (
        piece[i] as u32) < 0x80) by {
            if i == 0 {
                assert(piece[0] == c);
            } else {
                assert(piece[i] == rest[0][i - 1]);
            }
        }
        assert(spec_str_ok(piece));
        let whole = spec_split_ascii(b);
        assert forall|i: int| 0 <= i < whole.len() implies spec_str_ok(#[trigger] whole[i]) by {
            if i == 0 {
                assert(whole[0] == piece);
            } else {
                assert(whole[i] == rest.drop_first()[i - 1]);
                assert(rest.drop_first()[i - 1] == rest[i]);
            }
        }
    }
}

/// A decoded value can always be encoded again.
pub proof fn lemma_decoded_encodable(e: Endian, t: u16, b: Seq<u8>)
    requires
        spec_decode_value(e, t, b) is Some,
    ensures
        spec_encodable(spec_decode_value(e, t, b).unwrap()),
{
    if t == 2 {
        lemma_split_ascii_ok(b);
    }
}

} // verus!
