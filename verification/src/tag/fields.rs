//! The well-known field types: each is a typed view over one tag's value,
//! with its decoding and encoding rules.

use vstd::prelude::*;

use crate::tag::Field;
use crate::tag::Tag;
use crate::value::Rational;
use crate::value::TIFFValue;
use crate::value::ValueView;

verus! {

/// The number of columns in the image, i.e., the number of pixels per row.
/// Encoded as Short when the value fits 16 bits, else Long.
#[derive(Debug)]
pub struct ImageWidth(pub u32);

impl View for ImageWidth {
    type V = u32;

    open spec fn view(&self) -> u32 {
        self.0
    }
}

impl Field for ImageWidth {
    open spec fn spec_tag() -> Tag {
        Tag::ImageWidth
    }

    open spec fn spec_decode(v: ValueView) -> Option<u32> {
        match v {
            ValueView::Short(el) => if el.len() >= 1 {
                Some(el[0] as u32)
            } else {
                None
            },
            ValueView::Long(el) => if el.len() >= 1 {
                Some(el[0])
            } else {
                None
            },
            _ => None,
        }
    }

    open spec fn spec_encode(w: u32) -> Option<ValueView> {
        if w <= 0xFFFF {
            Some(ValueView::Short(seq![w as u16]))
        } else {
            Some(ValueView::Long(seq![w]))
        }
    }

    fn tag() -> Tag {
        Tag::ImageWidth
    }

    fn decode_from_value(value: &TIFFValue) -> Option<ImageWidth> {
        match value {
            TIFFValue::Short(el) => if el.len() >= 1 {
                Some(ImageWidth(el[0] as u32))
            } else {
                None
            },
            TIFFValue::Long(el) => if el.len() >= 1 {
                Some(ImageWidth(el[0]))
            } else {
                None
            },
            _ => None,
        }
    }

    fn encode_to_value(&self) -> (r: Option<TIFFValue>)
    {
        if self.0 <= 0xFFFF {
            let v = TIFFValue::Short(vec![self.0 as u16]);
            proof {
                assert(v@ =~~= ValueView::Short(seq![self.0 as u16]));
            }
            Some(v)
        } else {
            let v = TIFFValue::Long(vec![self.0]);
            proof {
                assert(v@ =~~= ValueView::Long(seq![self.0]));
            }
            Some(v)
        }
    }

    proof fn lemma_field_roundtrip(w: u32) {
    }
}


/// Copies a vector of 16-bit words.
fn copy_u16s(v: &Vec<u16>) -> (r: Vec<u16>)
    ensures
        r@ == v@,
{
    let mut out: Vec<u16> = Vec::new();
    let mut i: usize = 0;
    let n = v.len();
    while i < n
        invariant
            n == v@.len(),
            i <= n,
            out@ == v@.take(i as int),
        decreases n - i,
    {
        out.push(v[i]);
        proof {
            assert(v@.take(i as int).push(v@[i as int]) =~= v@.take(i as int + 1));
        }
        i = i + 1;
    }
    proof {
        assert(v@.take(n as int) =~= v@);
    }
    out
}

/// Copies a vector of 32-bit words.
fn copy_u32s(v: &Vec<u32>) -> (r: Vec<u32>)
    ensures
        r@ == v@,
{
    let mut out: Vec<u32> = Vec::new();
    let mut i: usize = 0;
    let n = v.len();
    while i < n
        invariant
            n == v@.len(),
            i <= n,
            out@ == v@.take(i as int),
        decreases n - i,
    {
        out.push(v[i]);
        proof {
            assert(v@.take(i as int).push(v@[i as int]) =~= v@.take(i as int + 1));
        }
        i = i + 1;
    }
    proof {
        assert(v@.take(n as int) =~= v@);
    }
    out
}

/// Widens 16-bit words to 32 bits.
fn widen_u16s(v: &Vec<u16>) -> (r: Vec<u32>)
    ensures
        r@.len() == v@.len(),
        forall|i: int| 0 <= i < v@.len() ==> #[trigger] r@[i] == v@[i] as u32,
{
    let mut out: Vec<u32> = Vec::new();
    let mut i: usize = 0;
    let n = v.len();
    while i < n
        invariant
            n == v@.len(),
            i <= n,
            out@.len() == i as int,
            forall|k: int| 0 <= k < i ==> #[trigger] out@[k] == v@[k] as u32,
        decreases n - i,
    {
        out.push(v[i] as u32);
        i = i + 1;
    }
    out
}

/// Narrows 32-bit words to 16 bits when every one fits, `None` otherwise.
fn lower_u32s(v: &Vec<u32>) -> (r: Option<Vec<u16>>)
    ensures
        match r {
            Some(out) => (forall|i: int| 0 <= i < v@.len() ==> (#[trigger] v@[i]) <= 0xFFFF)
                && out@ =~= Seq::new(v@.len(), |i: int| (v@[i] as u16)),
            None => !(forall|i: int| 0 <= i < v@.len() ==> (#[trigger] v@[i]) <= 0xFFFF),
        },
{
    let mut out: Vec<u16> = Vec::new();
    let mut i: usize = 0;
    let n = v.len();
    while i < n
        invariant
            n == v@.len(),
            i <= n,
            out@.len() == i as int,
            forall|k: int| 0 <= k < i ==> (#[trigger] v@[k]) <= 0xFFFF,
            forall|k: int| 0 <= k < i ==> #[trigger] out@[k] == v@[k] as u16,
        decreases n - i,
    {
        if v[i] > 0xFFFF {
            return None;
        }
        out.push(v[i] as u16);
        i = i + 1;
    }
    proof {
        assert(out@ =~= Seq::new(v@.len(), |i: int| (v@[i] as u16)));
    }
    Some(out)
}


/// The number of rows of pixels in the image.
/// Accepts Short or Long; encodes as Short when the value fits 16 bits,
/// otherwise Long.
#[derive(Debug)]
pub struct ImageLength(pub u32);

impl View for ImageLength {
    type V = u32;

    open spec fn view(&self) -> u32 {
        self.0
    }
}

impl Field for ImageLength {
    open spec fn spec_tag() -> Tag {
        Tag::ImageLength
    }

    open spec fn spec_decode(v: ValueView) -> Option<u32> {
        match v {
            ValueView::Short(el) => if el.len() >= 1 {
                Some(el[0] as u32)
            } else {
                None
            },
            ValueView::Long(el) => if el.len() >= 1 {
                Some(el[0])
            } else {
                None
            },
            _ => None,
        }
    }

    open spec fn spec_encode(w: u32) -> Option<ValueView> {
        if w <= 0xFFFF {
            Some(ValueView::Short(seq![w as u16]))
        } else {
            Some(ValueView::Long(seq![w]))
        }
    }

    fn tag() -> Tag {
        Tag::ImageLength
    }

    fn decode_from_value(value: &TIFFValue) -> Option<ImageLength> {
        match value {
            TIFFValue::Short(el) => if el.len() >= 1 {
                Some(ImageLength(el[0] as u32))
            } else {
                None
            },
            TIFFValue::Long(el) => if el.len() >= 1 {
                Some(ImageLength(el[0]))
            } else {
                None
            },
            _ => None,
        }
    }

    fn encode_to_value(&self) -> (r: Option<TIFFValue>) {
        if self.0 <= 0xFFFF {
            let v = TIFFValue::Short(vec![self.0 as u16]);
            proof {
                assert(v@ =~~= ValueView::Short(seq![self.0 as u16]));
            }
            Some(v)
        } else {
            let v = TIFFValue::Long(vec![self.0]);
            proof {
                assert(v@ =~~= ValueView::Long(seq![self.0]));
            }
            Some(v)
        }
    }

    proof fn lemma_field_roundtrip(w: u32) {
    }
}


/// The number of rows per strip.
/// Accepts Short or Long; encodes as Short when the value fits 16 bits,
/// otherwise Long.
#[derive(Debug)]
pub struct RowsPerStrip(pub u32);

impl View for RowsPerStrip {
    type V = u32;

    open spec fn view(&self) -> u32 {
        self.0
    }
}

impl Field for RowsPerStrip {
    open spec fn spec_tag() -> Tag {
        Tag::RowsPerStrip
    }

    open spec fn spec_decode(v: ValueView) -> Option<u32> {
        match v {
            ValueView::Short(el) => if el.len() >= 1 {
                Some(el[0] as u32)
            } else {
                None
            },
            ValueView::Long(el) => if el.len() >= 1 {
                Some(el[0])
            } else {
                None
            },
            _ => None,
        }
    }

    open spec fn spec_encode(w: u32) -> Option<ValueView> {
        if w <= 0xFFFF {
            Some(ValueView::Short(seq![w as u16]))
        } else {
            Some(ValueView::Long(seq![w]))
        }
    }

    fn tag() -> Tag {
        Tag::RowsPerStrip
    }

    fn decode_from_value(value: &TIFFValue) -> Option<RowsPerStrip> {
        match value {
            TIFFValue::Short(el) => if el.len() >= 1 {
                Some(RowsPerStrip(el[0] as u32))
            } else {
                None
            },
            TIFFValue::Long(el) => if el.len() >= 1 {
                Some(RowsPerStrip(el[0]))
            } else {
                None
            },
            _ => None,
        }
    }

    fn encode_to_value(&self) -> (r: Option<TIFFValue>) {
        if self.0 <= 0xFFFF {
            let v = TIFFValue::Short(vec![self.0 as u16]);
            proof {
                assert(v@ =~~= ValueView::Short(seq![self.0 as u16]));
            }
            Some(v)
        } else {
            let v = TIFFValue::Long(vec![self.0]);
            proof {
                assert(v@ =~~= ValueView::Long(seq![self.0]));
            }
            Some(v)
        }
    }

    proof fn lemma_field_roundtrip(w: u32) {
    }
}


/// The tile width in pixels.
/// Accepts Short or Long; encodes as Short when the value fits 16 bits,
/// otherwise Long.
#[derive(Debug)]
pub struct TileWidth(pub u32);

impl View for TileWidth {
    type V = u32;

    open spec fn view(&self) -> u32 {
        self.0
    }
}

impl Field for TileWidth {
    open spec fn spec_tag() -> Tag {
        Tag::TileWidth
    }

    open spec fn spec_decode(v: ValueView) -> Option<u32> {
        match v {
            ValueView::Short(el) => if el.len() >= 1 {
                Some(el[0] as u32)
            } else {
                None
            },
            ValueView::Long(el) => if el.len() >= 1 {
                Some(el[0])
            } else {
                None
            },
            _ => None,
        }
    }

    open spec fn spec_encode(w: u32) -> Option<ValueView> {
        if w <= 0xFFFF {
            Some(ValueView::Short(seq![w as u16]))
        } else {
            Some(ValueView::Long(seq![w]))
        }
    }

    fn tag() -> Tag {
        Tag::TileWidth
    }

    fn decode_from_value(value: &TIFFValue) -> Option<TileWidth> {
        match value {
            TIFFValue::Short(el) => if el.len() >= 1 {
                Some(TileWidth(el[0] as u32))
            } else {
                None
            },
            TIFFValue::Long(el) => if el.len() >= 1 {
                Some(TileWidth(el[0]))
            } else {
                None
            },
            _ => None,
        }
    }

    fn encode_to_value(&self) -> (r: Option<TIFFValue>) {
        if self.0 <= 0xFFFF {
            let v = TIFFValue::Short(vec![self.0 as u16]);
            proof {
                assert(v@ =~~= ValueView::Short(seq![self.0 as u16]));
            }
            Some(v)
        } else {
            let v = TIFFValue::Long(vec![self.0]);
            proof {
                assert(v@ =~~= ValueView::Long(seq![self.0]));
            }
            Some(v)
        }
    }

    proof fn lemma_field_roundtrip(w: u32) {
    }
}


/// The tile length (height) in pixels.
/// Accepts Short or Long; encodes as Short when the value fits 16 bits,
/// otherwise Long.
#[derive(Debug)]
pub struct TileLength(pub u32);

impl View for TileLength {
    type V = u32;

    open spec fn view(&self) -> u32 {
        self.0
    }
}

impl Field for TileLength {
    open spec fn spec_tag() -> Tag {
        Tag::TileLength
    }

    open spec fn spec_decode(v: ValueView) -> Option<u32> {
        match v {
            ValueView::Short(el) => if el.len() >= 1 {
                Some(el[0] as u32)
            } else {
                None
            },
            ValueView::Long(el) => if el.len() >= 1 {
                Some(el[0])
            } else {
                None
            },
            _ => None,
        }
    }

    open spec fn spec_encode(w: u32) -> Option<ValueView> {
        if w <= 0xFFFF {
            Some(ValueView::Short(seq![w as u16]))
        } else {
            Some(ValueView::Long(seq![w]))
        }
    }

    fn tag() -> Tag {
        Tag::TileLength
    }

    fn decode_from_value(value: &TIFFValue) -> Option<TileLength> {
        match value {
            TIFFValue::Short(el) => if el.len() >= 1 {
                Some(TileLength(el[0] as u32))
            } else {
                None
            },
            TIFFValue::Long(el) => if el.len() >= 1 {
                Some(TileLength(el[0]))
            } else {
                None
            },
            _ => None,
        }
    }

    fn encode_to_value(&self) -> (r: Option<TIFFValue>) {
        if self.0 <= 0xFFFF {
            let v = TIFFValue::Short(vec![self.0 as u16]);
            proof {
                assert(v@ =~~= ValueView::Short(seq![self.0 as u16]));
            }
            Some(v)
        } else {
            let v = TIFFValue::Long(vec![self.0]);
            proof {
                assert(v@ =~~= ValueView::Long(seq![self.0]));
            }
            Some(v)
        }
    }

    proof fn lemma_field_roundtrip(w: u32) {
    }
}


/// For each tile, the number of (compressed) bytes in that tile.
/// Accepts Short or Long; encodes as Short when the value fits 16 bits,
/// otherwise Long.
#[derive(Debug)]
pub struct TileByteCounts(pub u32);

impl View for TileByteCounts {
    type V = u32;

    open spec fn view(&self) -> u32 {
        self.0
    }
}

impl Field for TileByteCounts {
    open spec fn spec_tag() -> Tag {
        Tag::TileByteCounts
    }

    open spec fn spec_decode(v: ValueView) -> Option<u32> {
        match v {
            ValueView::Short(el) => if el.len() >= 1 {
                Some(el[0] as u32)
            } else {
                None
            },
            ValueView::Long(el) => if el.len() >= 1 {
                Some(el[0])
            } else {
                None
            },
            _ => None,
        }
    }

    open spec fn spec_encode(w: u32) -> Option<ValueView> {
        if w <= 0xFFFF {
            Some(ValueView::Short(seq![w as u16]))
        } else {
            Some(ValueView::Long(seq![w]))
        }
    }

    fn tag() -> Tag {
        Tag::TileByteCounts
    }

    fn decode_from_value(value: &TIFFValue) -> Option<TileByteCounts> {
        match value {
            TIFFValue::Short(el) => if el.len() >= 1 {
                Some(TileByteCounts(el[0] as u32))
            } else {
                None
            },
            TIFFValue::Long(el) => if el.len() >= 1 {
                Some(TileByteCounts(el[0]))
            } else {
                None
            },
            _ => None,
        }
    }

    fn encode_to_value(&self) -> (r: Option<TIFFValue>) {
        if self.0 <= 0xFFFF {
            let v = TIFFValue::Short(vec![self.0 as u16]);
            proof {
                assert(v@ =~~= ValueView::Short(seq![self.0 as u16]));
            }
            Some(v)
        } else {
            let v = TIFFValue::Long(vec![self.0]);
            proof {
                assert(v@ =~~= ValueView::Long(seq![self.0]));
            }
            Some(v)
        }
    }

    proof fn lemma_field_roundtrip(w: u32) {
    }
}


/// The number of components per pixel.
/// Accepts and encodes Short.
#[derive(Debug)]
pub struct SamplesPerPixel(pub u16);

impl View for SamplesPerPixel {
    type V = u16;

    open spec fn view(&self) -> u16 {
        self.0
    }
}

impl Field for SamplesPerPixel {
    open spec fn spec_tag() -> Tag {
        Tag::SamplesPerPixel
    }

    open spec fn spec_decode(v: ValueView) -> Option<u16> {
        match v {
            ValueView::Short(el) => if el.len() >= 1 {
                Some(el[0])
            } else {
                None
            },
            _ => None,
        }
    }

    open spec fn spec_encode(w: u16) -> Option<ValueView> {
        Some(ValueView::Short(seq![w]))
    }

    fn tag() -> Tag {
        Tag::SamplesPerPixel
    }

    fn decode_from_value(value: &TIFFValue) -> Option<SamplesPerPixel> {
        match value {
            TIFFValue::Short(el) => if el.len() >= 1 {
                Some(SamplesPerPixel(el[0]))
            } else {
                None
            },
            _ => None,
        }
    }

    fn encode_to_value(&self) -> (r: Option<TIFFValue>) {
        let v = TIFFValue::Short(vec![self.0]);
        proof {
            assert(v@ =~~= ValueView::Short(seq![self.0]));
        }
        Some(v)
    }

    proof fn lemma_field_roundtrip(w: u16) {
    }
}


/// The length of the dithering or halftoning matrix used to create a dithered or halftoned bilevel file.
/// Accepts and encodes Short.
#[derive(Debug)]
pub struct CellLength(pub u16);

impl View for CellLength {
    type V = u16;

    open spec fn view(&self) -> u16 {
        self.0
    }
}

impl Field for CellLength {
    open spec fn spec_tag() -> Tag {
        Tag::CellLength
    }

    open spec fn spec_decode(v: ValueView) -> Option<u16> {
        match v {
            ValueView::Short(el) => if el.len() >= 1 {
                Some(el[0])
            } else {
                None
            },
            _ => None,
        }
    }

    open spec fn spec_encode(w: u16) -> Option<ValueView> {
        Some(ValueView::Short(seq![w]))
    }

    fn tag() -> Tag {
        Tag::CellLength
    }

    fn decode_from_value(value: &TIFFValue) -> Option<CellLength> {
        match value {
            TIFFValue::Short(el) => if el.len() >= 1 {
                Some(CellLength(el[0]))
            } else {
                None
            },
            _ => None,
        }
    }

    fn encode_to_value(&self) -> (r: Option<TIFFValue>) {
        let v = TIFFValue::Short(vec![self.0]);
        proof {
            assert(v@ =~~= ValueView::Short(seq![self.0]));
        }
        Some(v)
    }

    proof fn lemma_field_roundtrip(w: u16) {
    }
}


/// The width of the dithering or halftoning matrix used to create a dithered or halftoned bilevel file.
/// Accepts and encodes Short.
#[derive(Debug)]
pub struct CellWidth(pub u16);

impl View for CellWidth {
    type V = u16;

    open spec fn view(&self) -> u16 {
        self.0
    }
}

impl Field for CellWidth {
    open spec fn spec_tag() -> Tag {
        Tag::CellWidth
    }

    open spec fn spec_decode(v: ValueView) -> Option<u16> {
        match v {
            ValueView::Short(el) => if el.len() >= 1 {
                Some(el[0])
            } else {
                None
            },
            _ => None,
        }
    }

    open spec fn spec_encode(w: u16) -> Option<ValueView> {
        Some(ValueView::Short(seq![w]))
    }

    fn tag() -> Tag {
        Tag::CellWidth
    }

    fn decode_from_value(value: &TIFFValue) -> Option<CellWidth> {
        match value {
            TIFFValue::Short(el) => if el.len() >= 1 {
                Some(CellWidth(el[0]))
            } else {
                None
            },
            _ => None,
        }
    }

    fn encode_to_value(&self) -> (r: Option<TIFFValue>) {
        let v = TIFFValue::Short(vec![self.0]);
        proof {
            assert(v@ =~~= ValueView::Short(seq![self.0]));
        }
        Some(v)
    }

    proof fn lemma_field_roundtrip(w: u16) {
    }
}


/// For black and white TIFF files that represent shades of gray, the technique used to convert from gray to black and white pixels.
/// Accepts and encodes Short.
#[derive(Debug)]
pub struct Threshholding(pub u16);

impl View for Threshholding {
    type V = u16;

    open spec fn view(&self) -> u16 {
        self.0
    }
}

impl Field for Threshholding {
    open spec fn spec_tag() -> Tag {
        Tag::Threshholding
    }

    open spec fn spec_decode(v: ValueView) -> Option<u16> {
        match v {
            ValueView::Short(el) => if el.len() >= 1 {
                Some(el[0])
            } else {
                None
            },
            _ => None,
        }
    }

    open spec fn spec_encode(w: u16) -> Option<ValueView> {
        Some(ValueView::Short(seq![w]))
    }

    fn tag() -> Tag {
        Tag::Threshholding
    }

    fn decode_from_value(value: &TIFFValue) -> Option<Threshholding> {
        match value {
            TIFFValue::Short(el) => if el.len() >= 1 {
                Some(Threshholding(el[0]))
            } else {
                None
            },
            _ => None,
        }
    }

    fn encode_to_value(&self) -> (r: Option<TIFFValue>) {
        let v = TIFFValue::Short(vec![self.0]);
        proof {
            assert(v@ =~~= ValueView::Short(seq![self.0]));
        }
        Some(v)
    }

    proof fn lemma_field_roundtrip(w: u16) {
    }
}


/// The page number of the page from which this image was scanned.
/// Accepts and encodes Short.
#[derive(Debug)]
pub struct PageNumber(pub u16);

impl View for PageNumber {
    type V = u16;

    open spec fn view(&self) -> u16 {
        self.0
    }
}

impl Field for PageNumber {
    open spec fn spec_tag() -> Tag {
        Tag::PageNumber
    }

    open spec fn spec_decode(v: ValueView) -> Option<u16> {
        match v {
            ValueView::Short(el) => if el.len() >= 1 {
                Some(el[0])
            } else {
                None
            },
            _ => None,
        }
    }

    open spec fn spec_encode(w: u16) -> Option<ValueView> {
        Some(ValueView::Short(seq![w]))
    }

    fn tag() -> Tag {
        Tag::PageNumber
    }

    fn decode_from_value(value: &TIFFValue) -> Option<PageNumber> {
        match value {
            TIFFValue::Short(el) => if el.len() >= 1 {
                Some(PageNumber(el[0]))
            } else {
                None
            },
            _ => None,
        }
    }

    fn encode_to_value(&self) -> (r: Option<TIFFValue>) {
        let v = TIFFValue::Short(vec![self.0]);
        proof {
            assert(v@ =~~= ValueView::Short(seq![self.0]));
        }
        Some(v)
    }

    proof fn lemma_field_roundtrip(w: u16) {
    }
}


/// The number of inks. Usually equal to SamplesPerPixel, unless there are extra samples.
/// Accepts and encodes Short.
#[derive(Debug)]
pub struct NumberOfInks(pub u16);

impl View for NumberOfInks {
    type V = u16;

    open spec fn view(&self) -> u16 {
        self.0
    }
}

impl Field for NumberOfInks {
    open spec fn spec_tag() -> Tag {
        Tag::NumberOfInks
    }

    open spec fn spec_decode(v: ValueView) -> Option<u16> {
        match v {
            ValueView::Short(el) => if el.len() >= 1 {
                Some(el[0])
            } else {
                None
            },
            _ => None,
        }
    }

    open spec fn spec_encode(w: u16) -> Option<ValueView> {
        Some(ValueView::Short(seq![w]))
    }

    fn tag() -> Tag {
        Tag::NumberOfInks
    }

    fn decode_from_value(value: &TIFFValue) -> Option<NumberOfInks> {
        match value {
            TIFFValue::Short(el) => if el.len() >= 1 {
                Some(NumberOfInks(el[0]))
            } else {
                None
            },
            _ => None,
        }
    }

    fn encode_to_value(&self) -> (r: Option<TIFFValue>) {
        let v = TIFFValue::Short(vec![self.0]);
        proof {
            assert(v@ =~~= ValueView::Short(seq![self.0]));
        }
        Some(v)
    }

    proof fn lemma_field_roundtrip(w: u16) {
    }
}


/// For each string of contiguous unused bytes in a TIFF file, the byte offset of the string.
/// Accepts and encodes Long.
#[derive(Debug)]
pub struct FreeOffsets(pub u32);

impl View for FreeOffsets {
    type V = u32;

    open spec fn view(&self) -> u32 {
        self.0
    }
}

impl Field for FreeOffsets {
    open spec fn spec_tag() -> Tag {
        Tag::FreeOffsets
    }

    open spec fn spec_decode(v: ValueView) -> Option<u32> {
        match v {
            ValueView::Long(el) => if el.len() >= 1 {
                Some(el[0])
            } else {
                None
            },
            _ => None,
        }
    }

    open spec fn spec_encode(w: u32) -> Option<ValueView> {
        Some(ValueView::Long(seq![w]))
    }

    fn tag() -> Tag {
        Tag::FreeOffsets
    }

    fn decode_from_value(value: &TIFFValue) -> Option<FreeOffsets> {
        match value {
            TIFFValue::Long(el) => if el.len() >= 1 {
                Some(FreeOffsets(el[0]))
            } else {
                None
            },
            _ => None,
        }
    }

    fn encode_to_value(&self) -> (r: Option<TIFFValue>) {
        let v = TIFFValue::Long(vec![self.0]);
        proof {
            assert(v@ =~~= ValueView::Long(seq![self.0]));
        }
        Some(v)
    }

    proof fn lemma_field_roundtrip(w: u32) {
    }
}


/// For each string of contiguous unused bytes in a TIFF file, the number of bytes in the string.
/// Accepts and encodes Long.
#[derive(Debug)]
pub struct FreeByteCounts(pub u32);

impl View for FreeByteCounts {
    type V = u32;

    open spec fn view(&self) -> u32 {
        self.0
    }
}

impl Field for FreeByteCounts {
    open spec fn spec_tag() -> Tag {
        Tag::FreeByteCounts
    }

    open spec fn spec_decode(v: ValueView) -> Option<u32> {
        match v {
            ValueView::Long(el) => if el.len() >= 1 {
                Some(el[0])
            } else {
                None
            },
            _ => None,
        }
    }

    open spec fn spec_encode(w: u32) -> Option<ValueView> {
        Some(ValueView::Long(seq![w]))
    }

    fn tag() -> Tag {
        Tag::FreeByteCounts
    }

    fn decode_from_value(value: &TIFFValue) -> Option<FreeByteCounts> {
        match value {
            TIFFValue::Long(el) => if el.len() >= 1 {
                Some(FreeByteCounts(el[0]))
            } else {
                None
            },
            _ => None,
        }
    }

    fn encode_to_value(&self) -> (r: Option<TIFFValue>) {
        let v = TIFFValue::Long(vec![self.0]);
        proof {
            assert(v@ =~~= ValueView::Long(seq![self.0]));
        }
        Some(v)
    }

    proof fn lemma_field_roundtrip(w: u32) {
    }
}


/// This field is made up of a set of 32 flag bits; bit 0 is the low-order bit.
/// Accepts and encodes Long.
#[derive(Debug)]
pub struct T4Options(pub u32);

impl View for T4Options {
    type V = u32;

    open spec fn view(&self) -> u32 {
        self.0
    }
}

impl Field for T4Options {
    open spec fn spec_tag() -> Tag {
        Tag::T4Options
    }

    open spec fn spec_decode(v: ValueView) -> Option<u32> {
        match v {
            ValueView::Long(el) => if el.len() >= 1 {
                Some(el[0])
            } else {
                None
            },
            _ => None,
        }
    }

    open spec fn spec_encode(w: u32) -> Option<ValueView> {
        Some(ValueView::Long(seq![w]))
    }

    fn tag() -> Tag {
        Tag::T4Options
    }

    fn decode_from_value(value: &TIFFValue) -> Option<T4Options> {
        match value {
            TIFFValue::Long(el) => if el.len() >= 1 {
                Some(T4Options(el[0]))
            } else {
                None
            },
            _ => None,
        }
    }

    fn encode_to_value(&self) -> (r: Option<TIFFValue>) {
        let v = TIFFValue::Long(vec![self.0]);
        proof {
            assert(v@ =~~= ValueView::Long(seq![self.0]));
        }
        Some(v)
    }

    proof fn lemma_field_roundtrip(w: u32) {
    }
}


/// This field is made up of a set of 32 flag bits; bit 0 is the low-order bit.
/// Accepts and encodes Long.
#[derive(Debug)]
pub struct T6Options(pub u32);

impl View for T6Options {
    type V = u32;

    open spec fn view(&self) -> u32 {
        self.0
    }
}

impl Field for T6Options {
    open spec fn spec_tag() -> Tag {
        Tag::T6Options
    }

    open spec fn spec_decode(v: ValueView) -> Option<u32> {
        match v {
            ValueView::Long(el) => if el.len() >= 1 {
                Some(el[0])
            } else {
                None
            },
            _ => None,
        }
    }

    open spec fn spec_encode(w: u32) -> Option<ValueView> {
        Some(ValueView::Long(seq![w]))
    }

    fn tag() -> Tag {
        Tag::T6Options
    }

    fn decode_from_value(value: &TIFFValue) -> Option<T6Options> {
        match value {
            TIFFValue::Long(el) => if el.len() >= 1 {
                Some(T6Options(el[0]))
            } else {
                None
            },
            _ => None,
        }
    }

    fn encode_to_value(&self) -> (r: Option<TIFFValue>) {
        let v = TIFFValue::Long(vec![self.0]);
        proof {
            assert(v@ =~~= ValueView::Long(seq![self.0]));
        }
        Some(v)
    }

    proof fn lemma_field_roundtrip(w: u32) {
    }
}


/// For each tile, the byte offset of that tile, as compressed and stored on disk.
/// Accepts and encodes Long.
#[derive(Debug)]
pub struct TileOffsets(pub u32);

impl View for TileOffsets {
    type V = u32;

    open spec fn view(&self) -> u32 {
        self.0
    }
}

impl Field for TileOffsets {
    open spec fn spec_tag() -> Tag {
        Tag::TileOffsets
    }

    open spec fn spec_decode(v: ValueView) -> Option<u32> {
        match v {
            ValueView::Long(el) => if el.len() >= 1 {
                Some(el[0])
            } else {
                None
            },
            _ => None,
        }
    }

    open spec fn spec_encode(w: u32) -> Option<ValueView> {
        Some(ValueView::Long(seq![w]))
    }

    fn tag() -> Tag {
        Tag::TileOffsets
    }

    fn decode_from_value(value: &TIFFValue) -> Option<TileOffsets> {
        match value {
            TIFFValue::Long(el) => if el.len() >= 1 {
                Some(TileOffsets(el[0]))
            } else {
                None
            },
            _ => None,
        }
    }

    fn encode_to_value(&self) -> (r: Option<TIFFValue>) {
        let v = TIFFValue::Long(vec![self.0]);
        proof {
            assert(v@ =~~= ValueView::Long(seq![self.0]));
        }
        Some(v)
    }

    proof fn lemma_field_roundtrip(w: u32) {
    }
}


/// Replaces the old SubfileType field: bit flags describing the kind of data in this subfile (reduced-image 0x1, single-page 0x2, transparency-mask 0x4).
/// Accepts and encodes Long.
#[derive(Debug)]
pub struct NewSubfileType(pub u32);

impl View for NewSubfileType {
    type V = u32;

    open spec fn view(&self) -> u32 {
        self.0
    }
}

impl Field for NewSubfileType {
    open spec fn spec_tag() -> Tag {
        Tag::NewSubfileType
    }

    open spec fn spec_decode(v: ValueView) -> Option<u32> {
        match v {
            ValueView::Long(el) => if el.len() >= 1 {
                Some(el[0])
            } else {
                None
            },
            _ => None,
        }
    }

    open spec fn spec_encode(w: u32) -> Option<ValueView> {
        Some(ValueView::Long(seq![w]))
    }

    fn tag() -> Tag {
        Tag::NewSubfileType
    }

    fn decode_from_value(value: &TIFFValue) -> Option<NewSubfileType> {
        match value {
            TIFFValue::Long(el) => if el.len() >= 1 {
                Some(NewSubfileType(el[0]))
            } else {
                None
            },
            _ => None,
        }
    }

    fn encode_to_value(&self) -> (r: Option<TIFFValue>) {
        let v = TIFFValue::Long(vec![self.0]);
        proof {
            assert(v@ =~~= ValueView::Long(seq![self.0]));
        }
        Some(v)
    }

    proof fn lemma_field_roundtrip(w: u32) {
    }
}


impl NewSubfileType {
    /// Whether the reduced-resolution flag (bit 0) is set.
    pub fn is_reduced_image(&self) -> (r: bool)
        ensures
            r == ((self@ & 0x1) > 0),
    {
        self.0 & 0x1 > 0
    }

    /// Whether the single-page flag (bit 1) is set.
    pub fn is_single_page_image(&self) -> (r: bool)
        ensures
            r == ((self@ & 0x2) > 0),
    {
        self.0 & 0x2 > 0
    }

    /// Whether the transparency-mask flag (bit 2) is set.
    pub fn is_transparency_mask_defined(&self) -> (r: bool)
        ensures
            r == ((self@ & 0x4) > 0),
    {
        self.0 & 0x4 > 0
    }
}


/// Number of bits per component.
/// Accepts and encodes Short, one element per component.
#[derive(Debug)]
pub struct BitsPerSample(pub Vec<u16>);

impl View for BitsPerSample {
    type V = Seq<u16>;

    open spec fn view(&self) -> Seq<u16> {
        self.0@
    }
}

impl Field for BitsPerSample {
    open spec fn spec_tag() -> Tag {
        Tag::BitsPerSample
    }

    open spec fn spec_decode(v: ValueView) -> Option<Seq<u16>> {
        match v {
            ValueView::Short(el) => Some(el),
            _ => None,
        }
    }

    open spec fn spec_encode(w: Seq<u16>) -> Option<ValueView> {
        Some(ValueView::Short(w))
    }

    fn tag() -> Tag {
        Tag::BitsPerSample
    }

    fn decode_from_value(value: &TIFFValue) -> Option<BitsPerSample> {
        match value {
            TIFFValue::Short(el) => Some(BitsPerSample(copy_u16s(el))),
            _ => None,
        }
    }

    fn encode_to_value(&self) -> (r: Option<TIFFValue>) {
        Some(TIFFValue::Short(copy_u16s(&self.0)))
    }

    proof fn lemma_field_roundtrip(w: Seq<u16>) {
    }
}


/// For grayscale data, the optical density of each possible pixel value.
/// Accepts and encodes Short, one element per component.
#[derive(Debug)]
pub struct GrayResponseCurve(pub Vec<u16>);

impl View for GrayResponseCurve {
    type V = Seq<u16>;

    open spec fn view(&self) -> Seq<u16> {
        self.0@
    }
}

impl Field for GrayResponseCurve {
    open spec fn spec_tag() -> Tag {
        Tag::GrayResponseCurve
    }

    open spec fn spec_decode(v: ValueView) -> Option<Seq<u16>> {
        match v {
            ValueView::Short(el) => Some(el),
            _ => None,
        }
    }

    open spec fn spec_encode(w: Seq<u16>) -> Option<ValueView> {
        Some(ValueView::Short(w))
    }

    fn tag() -> Tag {
        Tag::GrayResponseCurve
    }

    fn decode_from_value(value: &TIFFValue) -> Option<GrayResponseCurve> {
        match value {
            TIFFValue::Short(el) => Some(GrayResponseCurve(copy_u16s(el))),
            _ => None,
        }
    }

    fn encode_to_value(&self) -> (r: Option<TIFFValue>) {
        Some(TIFFValue::Short(copy_u16s(&self.0)))
    }

    proof fn lemma_field_roundtrip(w: Seq<u16>) {
    }
}


/// The maximum component value used.
/// Accepts and encodes Short, one element per component.
#[derive(Debug)]
pub struct MaxSampleValue(pub Vec<u16>);

impl View for MaxSampleValue {
    type V = Seq<u16>;

    open spec fn view(&self) -> Seq<u16> {
        self.0@
    }
}

impl Field for MaxSampleValue {
    open spec fn spec_tag() -> Tag {
        Tag::MaxSampleValue
    }

    open spec fn spec_decode(v: ValueView) -> Option<Seq<u16>> {
        match v {
            ValueView::Short(el) => Some(el),
            _ => None,
        }
    }

    open spec fn spec_encode(w: Seq<u16>) -> Option<ValueView> {
        Some(ValueView::Short(w))
    }

    fn tag() -> Tag {
        Tag::MaxSampleValue
    }

    fn decode_from_value(value: &TIFFValue) -> Option<MaxSampleValue> {
        match value {
            TIFFValue::Short(el) => Some(MaxSampleValue(copy_u16s(el))),
            _ => None,
        }
    }

    fn encode_to_value(&self) -> (r: Option<TIFFValue>) {
        Some(TIFFValue::Short(copy_u16s(&self.0)))
    }

    proof fn lemma_field_roundtrip(w: Seq<u16>) {
    }
}


/// The minimum component value used.
/// Accepts and encodes Short, one element per component.
#[derive(Debug)]
pub struct MinSampleValue(pub Vec<u16>);

impl View for MinSampleValue {
    type V = Seq<u16>;

    open spec fn view(&self) -> Seq<u16> {
        self.0@
    }
}

impl Field for MinSampleValue {
    open spec fn spec_tag() -> Tag {
        Tag::MinSampleValue
    }

    open spec fn spec_decode(v: ValueView) -> Option<Seq<u16>> {
        match v {
            ValueView::Short(el) => Some(el),
            _ => None,
        }
    }

    open spec fn spec_encode(w: Seq<u16>) -> Option<ValueView> {
        Some(ValueView::Short(w))
    }

    fn tag() -> Tag {
        Tag::MinSampleValue
    }

    fn decode_from_value(value: &TIFFValue) -> Option<MinSampleValue> {
        match value {
            TIFFValue::Short(el) => Some(MinSampleValue(copy_u16s(el))),
            _ => None,
        }
    }

    fn encode_to_value(&self) -> (r: Option<TIFFValue>) {
        Some(TIFFValue::Short(copy_u16s(&self.0)))
    }

    proof fn lemma_field_roundtrip(w: Seq<u16>) {
    }
}


/// A Red-Green-Blue color map (lookup table) for palette color images: all the Red values come first, followed by the Green values, then the Blue values.
/// Accepts and encodes Short, one element per component.
#[derive(Debug)]
pub struct ColorMap(pub Vec<u16>);

impl View for ColorMap {
    type V = Seq<u16>;

    open spec fn view(&self) -> Seq<u16> {
        self.0@
    }
}

impl Field for ColorMap {
    open spec fn spec_tag() -> Tag {
        Tag::ColorMap
    }

    open spec fn spec_decode(v: ValueView) -> Option<Seq<u16>> {
        match v {
            ValueView::Short(el) => Some(el),
            _ => None,
        }
    }

    open spec fn spec_encode(w: Seq<u16>) -> Option<ValueView> {
        Some(ValueView::Short(w))
    }

    fn tag() -> Tag {
        Tag::ColorMap
    }

    fn decode_from_value(value: &TIFFValue) -> Option<ColorMap> {
        match value {
            TIFFValue::Short(el) => Some(ColorMap(copy_u16s(el))),
            _ => None,
        }
    }

    fn encode_to_value(&self) -> (r: Option<TIFFValue>) {
        Some(TIFFValue::Short(copy_u16s(&self.0)))
    }

    proof fn lemma_field_roundtrip(w: Seq<u16>) {
    }
}


/// For each strip, the byte offset of that strip.
/// Accepts Short or Long; encodes as Short when every element fits 16 bits,
/// otherwise Long.
#[derive(Debug)]
pub struct StripOffsets(pub Vec<u32>);

impl View for StripOffsets {
    type V = Seq<u32>;

    open spec fn view(&self) -> Seq<u32> {
        self.0@
    }
}

impl Field for StripOffsets {
    open spec fn spec_tag() -> Tag {
        Tag::StripOffsets
    }

    open spec fn spec_decode(v: ValueView) -> Option<Seq<u32>> {
        match v {
            ValueView::Short(el) => Some(Seq::new(el.len(), |i: int| el[i] as u32)),
            ValueView::Long(el) => Some(el),
            _ => None,
        }
    }

    open spec fn spec_encode(w: Seq<u32>) -> Option<ValueView> {
        if forall|i: int| 0 <= i < w.len() ==> (#[trigger] w[i]) <= 0xFFFF {
            Some(ValueView::Short(Seq::new(w.len(), |i: int| (w[i] as u16))))
        } else {
            Some(ValueView::Long(w))
        }
    }

    fn tag() -> Tag {
        Tag::StripOffsets
    }

    fn decode_from_value(value: &TIFFValue) -> Option<StripOffsets> {
        match value {
            TIFFValue::Short(el) => {
                let widened = widen_u16s(el);
                proof {
                    assert(widened@ =~= Seq::new(el@.len(), |i: int| el@[i] as u32));
                }
                Some(StripOffsets(widened))
            },
            TIFFValue::Long(el) => Some(StripOffsets(copy_u32s(el))),
            _ => None,
        }
    }

    fn encode_to_value(&self) -> (r: Option<TIFFValue>) {
        match lower_u32s(&self.0) {
            Some(lowered) => {
                let v = TIFFValue::Short(lowered);
                proof {
                    assert(v@ =~~= ValueView::Short(
                        Seq::new(self.0@.len(), |i: int| (self.0@[i] as u16)),
                    ));
                }
                Some(v)
            },
            None => Some(TIFFValue::Long(copy_u32s(&self.0))),
        }
    }

    proof fn lemma_field_roundtrip(w: Seq<u32>) {
        if forall|i: int| 0 <= i < w.len() ==> (#[trigger] w[i]) <= 0xFFFF {
            let lowered = Seq::new(w.len(), |i: int| (w[i] as u16));
            assert(Seq::new(lowered.len(), |i: int| lowered[i] as u32) =~= w);
        }
    }
}


/// For each strip, the number of bytes in the strip after compression.
/// Accepts Short or Long; encodes as Short when every element fits 16 bits,
/// otherwise Long.
#[derive(Debug)]
pub struct StripByteCounts(pub Vec<u32>);

impl View for StripByteCounts {
    type V = Seq<u32>;

    open spec fn view(&self) -> Seq<u32> {
        self.0@
    }
}

impl Field for StripByteCounts {
    open spec fn spec_tag() -> Tag {
        Tag::StripByteCounts
    }

    open spec fn spec_decode(v: ValueView) -> Option<Seq<u32>> {
        match v {
            ValueView::Short(el) => Some(Seq::new(el.len(), |i: int| el[i] as u32)),
            ValueView::Long(el) => Some(el),
            _ => None,
        }
    }

    open spec fn spec_encode(w: Seq<u32>) -> Option<ValueView> {
        if forall|i: int| 0 <= i < w.len() ==> (#[trigger] w[i]) <= 0xFFFF {
            Some(ValueView::Short(Seq::new(w.len(), |i: int| (w[i] as u16))))
        } else {
            Some(ValueView::Long(w))
        }
    }

    fn tag() -> Tag {
        Tag::StripByteCounts
    }

    fn decode_from_value(value: &TIFFValue) -> Option<StripByteCounts> {
        match value {
            TIFFValue::Short(el) => {
                let widened = widen_u16s(el);
                proof {
                    assert(widened@ =~= Seq::new(el@.len(), |i: int| el@[i] as u32));
                }
                Some(StripByteCounts(widened))
            },
            TIFFValue::Long(el) => Some(StripByteCounts(copy_u32s(el))),
            _ => None,
        }
    }

    fn encode_to_value(&self) -> (r: Option<TIFFValue>) {
        match lower_u32s(&self.0) {
            Some(lowered) => {
                let v = TIFFValue::Short(lowered);
                proof {
                    assert(v@ =~~= ValueView::Short(
                        Seq::new(self.0@.len(), |i: int| (self.0@[i] as u16)),
                    ));
                }
                Some(v)
            },
            None => Some(TIFFValue::Long(copy_u32s(&self.0))),
        }
    }

    proof fn lemma_field_roundtrip(w: Seq<u32>) {
        if forall|i: int| 0 <= i < w.len() ==> (#[trigger] w[i]) <= 0xFFFF {
            let lowered = Seq::new(w.len(), |i: int| (w[i] as u16));
            assert(Seq::new(lowered.len(), |i: int| lowered[i] as u32) =~= w);
        }
    }
}


/// The number of pixels per ResolutionUnit in the ImageWidth direction.
/// Accepts and encodes Rational.
#[derive(Debug)]
pub struct XResolution(pub Rational<u32>);

impl View for XResolution {
    type V = Rational<u32>;

    open spec fn view(&self) -> Rational<u32> {
        self.0
    }
}

impl Field for XResolution {
    open spec fn spec_tag() -> Tag {
        Tag::XResolution
    }

    open spec fn spec_decode(v: ValueView) -> Option<Rational<u32>> {
        match v {
            ValueView::Rational(el) => if el.len() >= 1 {
                Some(Rational { num: el[0].0, denom: el[0].1 })
            } else {
                None
            },
            _ => None,
        }
    }

    open spec fn spec_encode(w: Rational<u32>) -> Option<ValueView> {
        Some(ValueView::Rational(seq![(w.num, w.denom)]))
    }

    fn tag() -> Tag {
        Tag::XResolution
    }

    fn decode_from_value(value: &TIFFValue) -> Option<XResolution> {
        match value {
            TIFFValue::Rational(el) => if el.len() >= 1 {
                Some(XResolution(el[0]))
            } else {
                None
            },
            _ => None,
        }
    }

    fn encode_to_value(&self) -> (r: Option<TIFFValue>) {
        let v = TIFFValue::Rational(vec![self.0]);
        proof {
            assert(v@ =~~= ValueView::Rational(seq![(self.0.num, self.0.denom)]));
        }
        Some(v)
    }

    proof fn lemma_field_roundtrip(w: Rational<u32>) {
    }
}


/// The number of pixels per ResolutionUnit in the ImageLength direction.
/// Accepts and encodes Rational.
#[derive(Debug)]
pub struct YResolution(pub Rational<u32>);

impl View for YResolution {
    type V = Rational<u32>;

    open spec fn view(&self) -> Rational<u32> {
        self.0
    }
}

impl Field for YResolution {
    open spec fn spec_tag() -> Tag {
        Tag::YResolution
    }

    open spec fn spec_decode(v: ValueView) -> Option<Rational<u32>> {
        match v {
            ValueView::Rational(el) => if el.len() >= 1 {
                Some(Rational { num: el[0].0, denom: el[0].1 })
            } else {
                None
            },
            _ => None,
        }
    }

    open spec fn spec_encode(w: Rational<u32>) -> Option<ValueView> {
        Some(ValueView::Rational(seq![(w.num, w.denom)]))
    }

    fn tag() -> Tag {
        Tag::YResolution
    }

    fn decode_from_value(value: &TIFFValue) -> Option<YResolution> {
        match value {
            TIFFValue::Rational(el) => if el.len() >= 1 {
                Some(YResolution(el[0]))
            } else {
                None
            },
            _ => None,
        }
    }

    fn encode_to_value(&self) -> (r: Option<TIFFValue>) {
        let v = TIFFValue::Rational(vec![self.0]);
        proof {
            assert(v@ =~~= ValueView::Rational(seq![(self.0.num, self.0.denom)]));
        }
        Some(v)
    }

    proof fn lemma_field_roundtrip(w: Rational<u32>) {
    }
}


/// X position of the image.
/// Accepts and encodes Rational.
#[derive(Debug)]
pub struct XPosition(pub Rational<u32>);

impl View for XPosition {
    type V = Rational<u32>;

    open spec fn view(&self) -> Rational<u32> {
        self.0
    }
}

impl Field for XPosition {
    open spec fn spec_tag() -> Tag {
        Tag::XPosition
    }

    open spec fn spec_decode(v: ValueView) -> Option<Rational<u32>> {
        match v {
            ValueView::Rational(el) => if el.len() >= 1 {
                Some(Rational { num: el[0].0, denom: el[0].1 })
            } else {
                None
            },
            _ => None,
        }
    }

    open spec fn spec_encode(w: Rational<u32>) -> Option<ValueView> {
        Some(ValueView::Rational(seq![(w.num, w.denom)]))
    }

    fn tag() -> Tag {
        Tag::XPosition
    }

    fn decode_from_value(value: &TIFFValue) -> Option<XPosition> {
        match value {
            TIFFValue::Rational(el) => if el.len() >= 1 {
                Some(XPosition(el[0]))
            } else {
                None
            },
            _ => None,
        }
    }

    fn encode_to_value(&self) -> (r: Option<TIFFValue>) {
        let v = TIFFValue::Rational(vec![self.0]);
        proof {
            assert(v@ =~~= ValueView::Rational(seq![(self.0.num, self.0.denom)]));
        }
        Some(v)
    }

    proof fn lemma_field_roundtrip(w: Rational<u32>) {
    }
}


/// Y position of the image.
/// Accepts and encodes Rational.
#[derive(Debug)]
pub struct YPosition(pub Rational<u32>);

impl View for YPosition {
    type V = Rational<u32>;

    open spec fn view(&self) -> Rational<u32> {
        self.0
    }
}

impl Field for YPosition {
    open spec fn spec_tag() -> Tag {
        Tag::YPosition
    }

    open spec fn spec_decode(v: ValueView) -> Option<Rational<u32>> {
        match v {
            ValueView::Rational(el) => if el.len() >= 1 {
                Some(Rational { num: el[0].0, denom: el[0].1 })
            } else {
                None
            },
            _ => None,
        }
    }

    open spec fn spec_encode(w: Rational<u32>) -> Option<ValueView> {
        Some(ValueView::Rational(seq![(w.num, w.denom)]))
    }

    fn tag() -> Tag {
        Tag::YPosition
    }

    fn decode_from_value(value: &TIFFValue) -> Option<YPosition> {
        match value {
            TIFFValue::Rational(el) => if el.len() >= 1 {
                Some(YPosition(el[0]))
            } else {
                None
            },
            _ => None,
        }
    }

    fn encode_to_value(&self) -> (r: Option<TIFFValue>) {
        let v = TIFFValue::Rational(vec![self.0]);
        proof {
            assert(v@ =~~= ValueView::Rational(seq![(self.0.num, self.0.denom)]));
        }
        Some(v)
    }

    proof fn lemma_field_roundtrip(w: Rational<u32>) {
    }
}


/// The color space of the image data.
#[derive(Debug, Copy, Clone, PartialEq, Eq, Structural)]
pub enum PhotometricInterpretation {
    WhiteIsZero,
    BlackIsZero,
    RGB,
    PaletteColor,
    TransparencyMask,
    CMYK,
    YCbCr,
}

/// The wire code of a `PhotometricInterpretation` value.
pub open spec fn spec_photometricinterpretation_code(w: PhotometricInterpretation) -> u16 {
    match w {
        PhotometricInterpretation::WhiteIsZero => 0,
        PhotometricInterpretation::BlackIsZero => 1,
        PhotometricInterpretation::RGB => 2,
        PhotometricInterpretation::PaletteColor => 3,
        PhotometricInterpretation::TransparencyMask => 4,
        PhotometricInterpretation::CMYK => 5,
        PhotometricInterpretation::YCbCr => 6,
    }
}

/// The `PhotometricInterpretation` value a wire code resolves to.
pub open spec fn spec_photometricinterpretation_from(c: u16) -> Option<PhotometricInterpretation> {
    if c == 0 {
        Some(PhotometricInterpretation::WhiteIsZero)
    } else if c == 1 {
        Some(PhotometricInterpretation::BlackIsZero)
    } else if c == 2 {
        Some(PhotometricInterpretation::RGB)
    } else if c == 3 {
        Some(PhotometricInterpretation::PaletteColor)
    } else if c == 4 {
        Some(PhotometricInterpretation::TransparencyMask)
    } else if c == 5 {
        Some(PhotometricInterpretation::CMYK)
    } else if c == 6 {
        Some(PhotometricInterpretation::YCbCr)
    } else {
        None
    }
}

impl View for PhotometricInterpretation {
    type V = PhotometricInterpretation;

    open spec fn view(&self) -> PhotometricInterpretation {
        *self
    }
}

impl Field for PhotometricInterpretation {
    open spec fn spec_tag() -> Tag {
        Tag::PhotometricInterpretation
    }

    open spec fn spec_decode(v: ValueView) -> Option<PhotometricInterpretation> {
        match v {
            ValueView::Short(el) => if el.len() >= 1 {
                spec_photometricinterpretation_from(el[0])
            } else {
                None
            },
            _ => None,
        }
    }

    open spec fn spec_encode(w: PhotometricInterpretation) -> Option<ValueView> {
        Some(ValueView::Short(seq![spec_photometricinterpretation_code(w)]))
    }

    fn tag() -> Tag {
        Tag::PhotometricInterpretation
    }

    fn decode_from_value(value: &TIFFValue) -> Option<PhotometricInterpretation> {
        match value {
            TIFFValue::Short(el) => if el.len() >= 1 {
            if el[0] == 0 {
                Some(PhotometricInterpretation::WhiteIsZero)
            } else if el[0] == 1 {
                Some(PhotometricInterpretation::BlackIsZero)
            } else if el[0] == 2 {
                Some(PhotometricInterpretation::RGB)
            } else if el[0] == 3 {
                Some(PhotometricInterpretation::PaletteColor)
            } else if el[0] == 4 {
                Some(PhotometricInterpretation::TransparencyMask)
            } else if el[0] == 5 {
                Some(PhotometricInterpretation::CMYK)
            } else if el[0] == 6 {
                Some(PhotometricInterpretation::YCbCr)
            } else {
                None
            }
            } else {
                None
            },
            _ => None,
        }
    }

    fn encode_to_value(&self) -> (r: Option<TIFFValue>) {
        let code: u16 = match self {
            PhotometricInterpretation::WhiteIsZero => 0,
            PhotometricInterpretation::BlackIsZero => 1,
            PhotometricInterpretation::RGB => 2,
            PhotometricInterpretation::PaletteColor => 3,
            PhotometricInterpretation::TransparencyMask => 4,
            PhotometricInterpretation::CMYK => 5,
            PhotometricInterpretation::YCbCr => 6,
        };
        let v = TIFFValue::Short(vec![code]);
        proof {
            assert(v@ =~~= ValueView::Short(seq![spec_photometricinterpretation_code(*self)]));
        }
        Some(v)
    }

    proof fn lemma_field_roundtrip(w: PhotometricInterpretation) {
    }
}


/// The unit of measurement for XResolution and YResolution.
#[derive(Debug, Copy, Clone, PartialEq, Eq, Structural)]
pub enum ResolutionUnit {
    NoUnit,
    Inch,
    Centimeter,
}

/// The wire code of a `ResolutionUnit` value.
pub open spec fn spec_resolutionunit_code(w: ResolutionUnit) -> u16 {
    match w {
        ResolutionUnit::NoUnit => 1,
        ResolutionUnit::Inch => 2,
        ResolutionUnit::Centimeter => 3,
    }
}

/// The `ResolutionUnit` value a wire code resolves to.
pub open spec fn spec_resolutionunit_from(c: u16) -> Option<ResolutionUnit> {
    if c == 1 {
        Some(ResolutionUnit::NoUnit)
    } else if c == 2 {
        Some(ResolutionUnit::Inch)
    } else if c == 3 {
        Some(ResolutionUnit::Centimeter)
    } else {
        None
    }
}

impl View for ResolutionUnit {
    type V = ResolutionUnit;

    open spec fn view(&self) -> ResolutionUnit {
        *self
    }
}

impl Field for ResolutionUnit {
    open spec fn spec_tag() -> Tag {
        Tag::ResolutionUnit
    }

    open spec fn spec_decode(v: ValueView) -> Option<ResolutionUnit> {
        match v {
            ValueView::Short(el) => if el.len() >= 1 {
                spec_resolutionunit_from(el[0])
            } else {
                None
            },
            _ => None,
        }
    }

    open spec fn spec_encode(w: ResolutionUnit) -> Option<ValueView> {
        Some(ValueView::Short(seq![spec_resolutionunit_code(w)]))
    }

    fn tag() -> Tag {
        Tag::ResolutionUnit
    }

    fn decode_from_value(value: &TIFFValue) -> Option<ResolutionUnit> {
        match value {
            TIFFValue::Short(el) => if el.len() >= 1 {
            if el[0] == 1 {
                Some(ResolutionUnit::NoUnit)
            } else if el[0] == 2 {
                Some(ResolutionUnit::Inch)
            } else if el[0] == 3 {
                Some(ResolutionUnit::Centimeter)
            } else {
                None
            }
            } else {
                None
            },
            _ => None,
        }
    }

    fn encode_to_value(&self) -> (r: Option<TIFFValue>) {
        let code: u16 = match self {
            ResolutionUnit::NoUnit => 1,
            ResolutionUnit::Inch => 2,
            ResolutionUnit::Centimeter => 3,
        };
        let v = TIFFValue::Short(vec![code]);
        proof {
            assert(v@ =~~= ValueView::Short(seq![spec_resolutionunit_code(*self)]));
        }
        Some(v)
    }

    proof fn lemma_field_roundtrip(w: ResolutionUnit) {
    }
}


/// How the components of each pixel are stored.
#[derive(Debug, Copy, Clone, PartialEq, Eq, Structural)]
pub enum PlanarConfiguration {
    Chunky,
    Planar,
}

/// The wire code of a `PlanarConfiguration` value.
pub open spec fn spec_planarconfiguration_code(w: PlanarConfiguration) -> u16 {
    match w {
        PlanarConfiguration::Chunky => 1,
        PlanarConfiguration::Planar => 2,
    }
}

/// The `PlanarConfiguration` value a wire code resolves to.
pub open spec fn spec_planarconfiguration_from(c: u16) -> Option<PlanarConfiguration> {
    if c == 1 {
        Some(PlanarConfiguration::Chunky)
    } else if c == 2 {
        Some(PlanarConfiguration::Planar)
    } else {
        None
    }
}

impl View for PlanarConfiguration {
    type V = PlanarConfiguration;

    open spec fn view(&self) -> PlanarConfiguration {
        *self
    }
}

impl Field for PlanarConfiguration {
    open spec fn spec_tag() -> Tag {
        Tag::PlanarConfiguration
    }

    open spec fn spec_decode(v: ValueView) -> Option<PlanarConfiguration> {
        match v {
            ValueView::Short(el) => if el.len() >= 1 {
                spec_planarconfiguration_from(el[0])
            } else {
                None
            },
            _ => None,
        }
    }

    open spec fn spec_encode(w: PlanarConfiguration) -> Option<ValueView> {
        Some(ValueView::Short(seq![spec_planarconfiguration_code(w)]))
    }

    fn tag() -> Tag {
        Tag::PlanarConfiguration
    }

    fn decode_from_value(value: &TIFFValue) -> Option<PlanarConfiguration> {
        match value {
            TIFFValue::Short(el) => if el.len() >= 1 {
            if el[0] == 1 {
                Some(PlanarConfiguration::Chunky)
            } else if el[0] == 2 {
                Some(PlanarConfiguration::Planar)
            } else {
                None
            }
            } else {
                None
            },
            _ => None,
        }
    }

    fn encode_to_value(&self) -> (r: Option<TIFFValue>) {
        let code: u16 = match self {
            PlanarConfiguration::Chunky => 1,
            PlanarConfiguration::Planar => 2,
        };
        let v = TIFFValue::Short(vec![code]);
        proof {
            assert(v@ =~~= ValueView::Short(seq![spec_planarconfiguration_code(*self)]));
        }
        Some(v)
    }

    proof fn lemma_field_roundtrip(w: PlanarConfiguration) {
    }
}


/// A predictor is a mathematical operator applied to the image data before an encoding scheme is applied.
#[derive(Debug, Copy, Clone, PartialEq, Eq, Structural)]
pub enum Predictor {
    NoPrediction,
    HorizontalDifferencing,
}

/// The wire code of a `Predictor` value.
pub open spec fn spec_predictor_code(w: Predictor) -> u16 {
    match w {
        Predictor::NoPrediction => 1,
        Predictor::HorizontalDifferencing => 2,
    }
}

/// The `Predictor` value a wire code resolves to.
pub open spec fn spec_predictor_from(c: u16) -> Option<Predictor> {
    if c == 1 {
        Some(Predictor::NoPrediction)
    } else if c == 2 {
        Some(Predictor::HorizontalDifferencing)
    } else {
        None
    }
}

impl View for Predictor {
    type V = Predictor;

    open spec fn view(&self) -> Predictor {
        *self
    }
}

impl Field for Predictor {
    open spec fn spec_tag() -> Tag {
        Tag::Predictor
    }

    open spec fn spec_decode(v: ValueView) -> Option<Predictor> {
        match v {
            ValueView::Short(el) => if el.len() >= 1 {
                spec_predictor_from(el[0])
            } else {
                None
            },
            _ => None,
        }
    }

    open spec fn spec_encode(w: Predictor) -> Option<ValueView> {
        Some(ValueView::Short(seq![spec_predictor_code(w)]))
    }

    fn tag() -> Tag {
        Tag::Predictor
    }

    fn decode_from_value(value: &TIFFValue) -> Option<Predictor> {
        match value {
            TIFFValue::Short(el) => if el.len() >= 1 {
            if el[0] == 1 {
                Some(Predictor::NoPrediction)
            } else if el[0] == 2 {
                Some(Predictor::HorizontalDifferencing)
            } else {
                None
            }
            } else {
                None
            },
            _ => None,
        }
    }

    fn encode_to_value(&self) -> (r: Option<TIFFValue>) {
        let code: u16 = match self {
            Predictor::NoPrediction => 1,
            Predictor::HorizontalDifferencing => 2,
        };
        let v = TIFFValue::Short(vec![code]);
        proof {
            assert(v@ =~~= ValueView::Short(seq![spec_predictor_code(*self)]));
        }
        Some(v)
    }

    proof fn lemma_field_roundtrip(w: Predictor) {
    }
}


/// A general indication of the kind of data contained in this subfile (deprecated: see NewSubfileType).
#[derive(Debug, Copy, Clone, PartialEq, Eq, Structural)]
pub enum SubfileType {
    FullResolutionImage,
    ReducedResolutionImage,
    SinglePageImage,
}

/// The wire code of a `SubfileType` value.
pub open spec fn spec_subfiletype_code(w: SubfileType) -> u16 {
    match w {
        SubfileType::FullResolutionImage => 1,
        SubfileType::ReducedResolutionImage => 2,
        SubfileType::SinglePageImage => 3,
    }
}

/// The `SubfileType` value a wire code resolves to.
pub open spec fn spec_subfiletype_from(c: u16) -> Option<SubfileType> {
    if c == 1 {
        Some(SubfileType::FullResolutionImage)
    } else if c == 2 {
        Some(SubfileType::ReducedResolutionImage)
    } else if c == 3 {
        Some(SubfileType::SinglePageImage)
    } else {
        None
    }
}

impl View for SubfileType {
    type V = SubfileType;

    open spec fn view(&self) -> SubfileType {
        *self
    }
}

impl Field for SubfileType {
    open spec fn spec_tag() -> Tag {
        Tag::SubfileType
    }

    open spec fn spec_decode(v: ValueView) -> Option<SubfileType> {
        match v {
            ValueView::Short(el) => if el.len() >= 1 {
                spec_subfiletype_from(el[0])
            } else {
                None
            },
            _ => None,
        }
    }

    open spec fn spec_encode(w: SubfileType) -> Option<ValueView> {
        Some(ValueView::Short(seq![spec_subfiletype_code(w)]))
    }

    fn tag() -> Tag {
        Tag::SubfileType
    }

    fn decode_from_value(value: &TIFFValue) -> Option<SubfileType> {
        match value {
            TIFFValue::Short(el) => if el.len() >= 1 {
            if el[0] == 1 {
                Some(SubfileType::FullResolutionImage)
            } else if el[0] == 2 {
                Some(SubfileType::ReducedResolutionImage)
            } else if el[0] == 3 {
                Some(SubfileType::SinglePageImage)
            } else {
                None
            }
            } else {
                None
            },
            _ => None,
        }
    }

    fn encode_to_value(&self) -> (r: Option<TIFFValue>) {
        let code: u16 = match self {
            SubfileType::FullResolutionImage => 1,
            SubfileType::ReducedResolutionImage => 2,
            SubfileType::SinglePageImage => 3,
        };
        let v = TIFFValue::Short(vec![code]);
        proof {
            assert(v@ =~~= ValueView::Short(seq![spec_subfiletype_code(*self)]));
        }
        Some(v)
    }

    proof fn lemma_field_roundtrip(w: SubfileType) {
    }
}


/// Compression scheme used on the image data.
#[derive(Debug, Copy, Clone, PartialEq, Eq, Structural)]
pub enum Compression {
    NoCompression,
    ModifiedHuffmanCompression,
    PackBits,
}

/// The wire code of a `Compression` value.
pub open spec fn spec_compression_code(w: Compression) -> u16 {
    match w {
        Compression::NoCompression => 1,
        Compression::ModifiedHuffmanCompression => 2,
        Compression::PackBits => 32773,
    }
}

/// The `Compression` value a wire code resolves to.
pub open spec fn spec_compression_from(c: u16) -> Option<Compression> {
    if c == 1 {
        Some(Compression::NoCompression)
    } else if c == 2 {
        Some(Compression::ModifiedHuffmanCompression)
    } else if c == 32773 {
        Some(Compression::PackBits)
    } else {
        None
    }
}

impl View for Compression {
    type V = Compression;

    open spec fn view(&self) -> Compression {
        *self
    }
}

impl Field for Compression {
    open spec fn spec_tag() -> Tag {
        Tag::Compression
    }

    open spec fn spec_decode(v: ValueView) -> Option<Compression> {
        match v {
            ValueView::Short(el) => if el.len() >= 1 {
                spec_compression_from(el[0])
            } else {
                None
            },
            _ => None,
        }
    }

    open spec fn spec_encode(w: Compression) -> Option<ValueView> {
        Some(ValueView::Short(seq![spec_compression_code(w)]))
    }

    fn tag() -> Tag {
        Tag::Compression
    }

    fn decode_from_value(value: &TIFFValue) -> Option<Compression> {
        match value {
            TIFFValue::Short(el) => if el.len() >= 1 {
            if el[0] == 1 {
                Some(Compression::NoCompression)
            } else if el[0] == 2 {
                Some(Compression::ModifiedHuffmanCompression)
            } else if el[0] == 32773 {
                Some(Compression::PackBits)
            } else {
                None
            }
            } else {
                None
            },
            _ => None,
        }
    }

    fn encode_to_value(&self) -> (r: Option<TIFFValue>) {
        let code: u16 = match self {
            Compression::NoCompression => 1,
            Compression::ModifiedHuffmanCompression => 2,
            Compression::PackBits => 32773,
        };
        let v = TIFFValue::Short(vec![code]);
        proof {
            assert(v@ =~~= ValueView::Short(seq![spec_compression_code(*self)]));
        }
        Some(v)
    }

    proof fn lemma_field_roundtrip(w: Compression) {
    }
}


/// The logical order of bits within a byte.
#[derive(Debug, Copy, Clone, PartialEq, Eq, Structural)]
pub enum FillOrder {
    LowerColumnsToHigherOrderBits,
    LowerColumnsToLowerOrderBits,
}

/// The wire code of a `FillOrder` value.
pub open spec fn spec_fillorder_code(w: FillOrder) -> u16 {
    match w {
        FillOrder::LowerColumnsToHigherOrderBits => 1,
        FillOrder::LowerColumnsToLowerOrderBits => 2,
    }
}

/// The `FillOrder` value a wire code resolves to.
pub open spec fn spec_fillorder_from(c: u16) -> Option<FillOrder> {
    if c == 1 {
        Some(FillOrder::LowerColumnsToHigherOrderBits)
    } else if c == 2 {
        Some(FillOrder::LowerColumnsToLowerOrderBits)
    } else {
        None
    }
}

impl View for FillOrder {
    type V = FillOrder;

    open spec fn view(&self) -> FillOrder {
        *self
    }
}

impl Field for FillOrder {
    open spec fn spec_tag() -> Tag {
        Tag::FillOrder
    }

    open spec fn spec_decode(v: ValueView) -> Option<FillOrder> {
        match v {
            ValueView::Short(el) => if el.len() >= 1 {
                spec_fillorder_from(el[0])
            } else {
                None
            },
            _ => None,
        }
    }

    open spec fn spec_encode(w: FillOrder) -> Option<ValueView> {
        Some(ValueView::Short(seq![spec_fillorder_code(w)]))
    }

    fn tag() -> Tag {
        Tag::FillOrder
    }

    fn decode_from_value(value: &TIFFValue) -> Option<FillOrder> {
        match value {
            TIFFValue::Short(el) => if el.len() >= 1 {
            if el[0] == 1 {
                Some(FillOrder::LowerColumnsToHigherOrderBits)
            } else if el[0] == 2 {
                Some(FillOrder::LowerColumnsToLowerOrderBits)
            } else {
                None
            }
            } else {
                None
            },
            _ => None,
        }
    }

    fn encode_to_value(&self) -> (r: Option<TIFFValue>) {
        let code: u16 = match self {
            FillOrder::LowerColumnsToHigherOrderBits => 1,
            FillOrder::LowerColumnsToLowerOrderBits => 2,
        };
        let v = TIFFValue::Short(vec![code]);
        proof {
            assert(v@ =~~= ValueView::Short(seq![spec_fillorder_code(*self)]));
        }
        Some(v)
    }

    proof fn lemma_field_roundtrip(w: FillOrder) {
    }
}


/// The precision of the information contained in the GrayResponseCurve.
#[derive(Debug, Copy, Clone, PartialEq, Eq, Structural)]
pub enum GrayResponseUnit {
    TenthsOfUnit,
    HundredthsOfUnit,
    ThousandthsOfUnit,
    TenThousandthsOfUnit,
    HundredThousandthsOfUnit,
}

/// The wire code of a `GrayResponseUnit` value.
pub open spec fn spec_grayresponseunit_code(w: GrayResponseUnit) -> u16 {
    match w {
        GrayResponseUnit::TenthsOfUnit => 1,
        GrayResponseUnit::HundredthsOfUnit => 2,
        GrayResponseUnit::ThousandthsOfUnit => 3,
        GrayResponseUnit::TenThousandthsOfUnit => 4,
        GrayResponseUnit::HundredThousandthsOfUnit => 5,
    }
}

/// The `GrayResponseUnit` value a wire code resolves to.
pub open spec fn spec_grayresponseunit_from(c: u16) -> Option<GrayResponseUnit> {
    if c == 1 {
        Some(GrayResponseUnit::TenthsOfUnit)
    } else if c == 2 {
        Some(GrayResponseUnit::HundredthsOfUnit)
    } else if c == 3 {
        Some(GrayResponseUnit::ThousandthsOfUnit)
    } else if c == 4 {
        Some(GrayResponseUnit::TenThousandthsOfUnit)
    } else if c == 5 {
        Some(GrayResponseUnit::HundredThousandthsOfUnit)
    } else {
        None
    }
}

impl View for GrayResponseUnit {
    type V = GrayResponseUnit;

    open spec fn view(&self) -> GrayResponseUnit {
        *self
    }
}

impl Field for GrayResponseUnit {
    open spec fn spec_tag() -> Tag {
        Tag::GrayResponseUnit
    }

    open spec fn spec_decode(v: ValueView) -> Option<GrayResponseUnit> {
        match v {
            ValueView::Short(el) => if el.len() >= 1 {
                spec_grayresponseunit_from(el[0])
            } else {
                None
            },
            _ => None,
        }
    }

    open spec fn spec_encode(w: GrayResponseUnit) -> Option<ValueView> {
        Some(ValueView::Short(seq![spec_grayresponseunit_code(w)]))
    }

    fn tag() -> Tag {
        Tag::GrayResponseUnit
    }

    fn decode_from_value(value: &TIFFValue) -> Option<GrayResponseUnit> {
        match value {
            TIFFValue::Short(el) => if el.len() >= 1 {
            if el[0] == 1 {
                Some(GrayResponseUnit::TenthsOfUnit)
            } else if el[0] == 2 {
                Some(GrayResponseUnit::HundredthsOfUnit)
            } else if el[0] == 3 {
                Some(GrayResponseUnit::ThousandthsOfUnit)
            } else if el[0] == 4 {
                Some(GrayResponseUnit::TenThousandthsOfUnit)
            } else if el[0] == 5 {
                Some(GrayResponseUnit::HundredThousandthsOfUnit)
            } else {
                None
            }
            } else {
                None
            },
            _ => None,
        }
    }

    fn encode_to_value(&self) -> (r: Option<TIFFValue>) {
        let code: u16 = match self {
            GrayResponseUnit::TenthsOfUnit => 1,
            GrayResponseUnit::HundredthsOfUnit => 2,
            GrayResponseUnit::ThousandthsOfUnit => 3,
            GrayResponseUnit::TenThousandthsOfUnit => 4,
            GrayResponseUnit::HundredThousandthsOfUnit => 5,
        };
        let v = TIFFValue::Short(vec![code]);
        proof {
            assert(v@ =~~= ValueView::Short(seq![spec_grayresponseunit_code(*self)]));
        }
        Some(v)
    }

    proof fn lemma_field_roundtrip(w: GrayResponseUnit) {
    }
}


/// The orientation of the image with respect to the rows and columns.
#[derive(Debug, Copy, Clone, PartialEq, Eq, Structural)]
pub enum Orientation {
    RTopCLeft,
    RTopCRight,
    RBottomCRight,
    RBottomCLeft,
    RLeftCTop,
    RRightCTop,
    RRightCBottom,
    RLeftCBottom,
}

/// The wire code of a `Orientation` value.
pub open spec fn spec_orientation_code(w: Orientation) -> u16 {
    match w {
        Orientation::RTopCLeft => 1,
        Orientation::RTopCRight => 2,
        Orientation::RBottomCRight => 3,
        Orientation::RBottomCLeft => 4,
        Orientation::RLeftCTop => 5,
        Orientation::RRightCTop => 6,
        Orientation::RRightCBottom => 7,
        Orientation::RLeftCBottom => 8,
    }
}

/// The `Orientation` value a wire code resolves to.
pub open spec fn spec_orientation_from(c: u16) -> Option<Orientation> {
    if c == 1 {
        Some(Orientation::RTopCLeft)
    } else if c == 2 {
        Some(Orientation::RTopCRight)
    } else if c == 3 {
        Some(Orientation::RBottomCRight)
    } else if c == 4 {
        Some(Orientation::RBottomCLeft)
    } else if c == 5 {
        Some(Orientation::RLeftCTop)
    } else if c == 6 {
        Some(Orientation::RRightCTop)
    } else if c == 7 {
        Some(Orientation::RRightCBottom)
    } else if c == 8 {
        Some(Orientation::RLeftCBottom)
    } else {
        None
    }
}

impl View for Orientation {
    type V = Orientation;

    open spec fn view(&self) -> Orientation {
        *self
    }
}

impl Field for Orientation {
    open spec fn spec_tag() -> Tag {
        Tag::Orientation
    }

    open spec fn spec_decode(v: ValueView) -> Option<Orientation> {
        match v {
            ValueView::Short(el) => if el.len() >= 1 {
                spec_orientation_from(el[0])
            } else {
                None
            },
            _ => None,
        }
    }

    open spec fn spec_encode(w: Orientation) -> Option<ValueView> {
        Some(ValueView::Short(seq![spec_orientation_code(w)]))
    }

    fn tag() -> Tag {
        Tag::Orientation
    }

    fn decode_from_value(value: &TIFFValue) -> Option<Orientation> {
        match value {
            TIFFValue::Short(el) => if el.len() >= 1 {
            if el[0] == 1 {
                Some(Orientation::RTopCLeft)
            } else if el[0] == 2 {
                Some(Orientation::RTopCRight)
            } else if el[0] == 3 {
                Some(Orientation::RBottomCRight)
            } else if el[0] == 4 {
                Some(Orientation::RBottomCLeft)
            } else if el[0] == 5 {
                Some(Orientation::RLeftCTop)
            } else if el[0] == 6 {
                Some(Orientation::RRightCTop)
            } else if el[0] == 7 {
                Some(Orientation::RRightCBottom)
            } else if el[0] == 8 {
                Some(Orientation::RLeftCBottom)
            } else {
                None
            }
            } else {
                None
            },
            _ => None,
        }
    }

    fn encode_to_value(&self) -> (r: Option<TIFFValue>) {
        let code: u16 = match self {
            Orientation::RTopCLeft => 1,
            Orientation::RTopCRight => 2,
            Orientation::RBottomCRight => 3,
            Orientation::RBottomCLeft => 4,
            Orientation::RLeftCTop => 5,
            Orientation::RRightCTop => 6,
            Orientation::RRightCBottom => 7,
            Orientation::RLeftCBottom => 8,
        };
        let v = TIFFValue::Short(vec![code]);
        proof {
            assert(v@ =~~= ValueView::Short(seq![spec_orientation_code(*self)]));
        }
        Some(v)
    }

    proof fn lemma_field_roundtrip(w: Orientation) {
    }
}


/// The set of inks used in a separated image.
#[derive(Debug, Copy, Clone, PartialEq, Eq, Structural)]
pub enum InkSet {
    CMYK,
    NotCMYK,
}

/// The wire code of a `InkSet` value.
pub open spec fn spec_inkset_code(w: InkSet) -> u16 {
    match w {
        InkSet::CMYK => 1,
        InkSet::NotCMYK => 2,
    }
}

/// The `InkSet` value a wire code resolves to.
pub open spec fn spec_inkset_from(c: u16) -> Option<InkSet> {
    if c == 1 {
        Some(InkSet::CMYK)
    } else if c == 2 {
        Some(InkSet::NotCMYK)
    } else {
        None
    }
}

impl View for InkSet {
    type V = InkSet;

    open spec fn view(&self) -> InkSet {
        *self
    }
}

impl Field for InkSet {
    open spec fn spec_tag() -> Tag {
        Tag::InkSet
    }

    open spec fn spec_decode(v: ValueView) -> Option<InkSet> {
        match v {
            ValueView::Short(el) => if el.len() >= 1 {
                spec_inkset_from(el[0])
            } else {
                None
            },
            _ => None,
        }
    }

    open spec fn spec_encode(w: InkSet) -> Option<ValueView> {
        Some(ValueView::Short(seq![spec_inkset_code(w)]))
    }

    fn tag() -> Tag {
        Tag::InkSet
    }

    fn decode_from_value(value: &TIFFValue) -> Option<InkSet> {
        match value {
            TIFFValue::Short(el) => if el.len() >= 1 {
            if el[0] == 1 {
                Some(InkSet::CMYK)
            } else if el[0] == 2 {
                Some(InkSet::NotCMYK)
            } else {
                None
            }
            } else {
                None
            },
            _ => None,
        }
    }

    fn encode_to_value(&self) -> (r: Option<TIFFValue>) {
        let code: u16 = match self {
            InkSet::CMYK => 1,
            InkSet::NotCMYK => 2,
        };
        let v = TIFFValue::Short(vec![code]);
        proof {
            assert(v@ =~~= ValueView::Short(seq![spec_inkset_code(*self)]));
        }
        Some(v)
    }

    proof fn lemma_field_roundtrip(w: InkSet) {
    }
}


/// Name and version number of the software package(s) used to create the image.
/// Accepts and encodes Ascii; the field holds the first string.
#[derive(Debug)]
pub struct Software(pub String);

impl View for Software {
    type V = Seq<char>;

    open spec fn view(&self) -> Seq<char> {
        self.0@
    }
}

impl Field for Software {
    open spec fn spec_tag() -> Tag {
        Tag::Software
    }

    open spec fn spec_decode(v: ValueView) -> Option<Seq<char>> {
        match v {
            ValueView::Ascii(el) => if el.len() >= 1 {
                Some(el[0])
            } else {
                None
            },
            _ => None,
        }
    }

    open spec fn spec_encode(w: Seq<char>) -> Option<ValueView> {
        Some(ValueView::Ascii(seq![w]))
    }

    fn tag() -> Tag {
        Tag::Software
    }

    fn decode_from_value(value: &TIFFValue) -> (r: Option<Software>) {
        match value {
            TIFFValue::Ascii(el) => if el.len() >= 1 {
                let s = el[0].clone();
                proof {
                    assert(value@ == ValueView::Ascii(el.deep_view()));
                    assert(el.deep_view()[0] == el@[0]@);
                }
                Some(Software(s))
            } else {
                proof {
                    assert(el.deep_view().len() == el@.len());
                }
                None
            },
            _ => None,
        }
    }

    fn encode_to_value(&self) -> (r: Option<TIFFValue>) {
        let v = TIFFValue::Ascii(vec![self.0.clone()]);
        proof {
            assert(v@ =~~= ValueView::Ascii(seq![self.0@]));
        }
        Some(v)
    }

    proof fn lemma_field_roundtrip(w: Seq<char>) {
    }
}


/// Copyright notice.
/// Accepts and encodes Ascii; the field holds the first string.
#[derive(Debug)]
pub struct Copyright(pub String);

impl View for Copyright {
    type V = Seq<char>;

    open spec fn view(&self) -> Seq<char> {
        self.0@
    }
}

impl Field for Copyright {
    open spec fn spec_tag() -> Tag {
        Tag::Copyright
    }

    open spec fn spec_decode(v: ValueView) -> Option<Seq<char>> {
        match v {
            ValueView::Ascii(el) => if el.len() >= 1 {
                Some(el[0])
            } else {
                None
            },
            _ => None,
        }
    }

    open spec fn spec_encode(w: Seq<char>) -> Option<ValueView> {
        Some(ValueView::Ascii(seq![w]))
    }

    fn tag() -> Tag {
        Tag::Copyright
    }

    fn decode_from_value(value: &TIFFValue) -> (r: Option<Copyright>) {
        match value {
            TIFFValue::Ascii(el) => if el.len() >= 1 {
                let s = el[0].clone();
                proof {
                    assert(value@ == ValueView::Ascii(el.deep_view()));
                    assert(el.deep_view()[0] == el@[0]@);
                }
                Some(Copyright(s))
            } else {
                proof {
                    assert(el.deep_view().len() == el@.len());
                }
                None
            },
            _ => None,
        }
    }

    fn encode_to_value(&self) -> (r: Option<TIFFValue>) {
        let v = TIFFValue::Ascii(vec![self.0.clone()]);
        proof {
            assert(v@ =~~= ValueView::Ascii(seq![self.0@]));
        }
        Some(v)
    }

    proof fn lemma_field_roundtrip(w: Seq<char>) {
    }
}


/// The computer and/or operating system in use at the time of image creation.
/// Accepts and encodes Ascii; the field holds the first string.
#[derive(Debug)]
pub struct HostComputer(pub String);

impl View for HostComputer {
    type V = Seq<char>;

    open spec fn view(&self) -> Seq<char> {
        self.0@
    }
}

impl Field for HostComputer {
    open spec fn spec_tag() -> Tag {
        Tag::HostComputer
    }

    open spec fn spec_decode(v: ValueView) -> Option<Seq<char>> {
        match v {
            ValueView::Ascii(el) => if el.len() >= 1 {
                Some(el[0])
            } else {
                None
            },
            _ => None,
        }
    }

    open spec fn spec_encode(w: Seq<char>) -> Option<ValueView> {
        Some(ValueView::Ascii(seq![w]))
    }

    fn tag() -> Tag {
        Tag::HostComputer
    }

    fn decode_from_value(value: &TIFFValue) -> (r: Option<HostComputer>) {
        match value {
            TIFFValue::Ascii(el) => if el.len() >= 1 {
                let s = el[0].clone();
                proof {
                    assert(value@ == ValueView::Ascii(el.deep_view()));
                    assert(el.deep_view()[0] == el@[0]@);
                }
                Some(HostComputer(s))
            } else {
                proof {
                    assert(el.deep_view().len() == el@.len());
                }
                None
            },
            _ => None,
        }
    }

    fn encode_to_value(&self) -> (r: Option<TIFFValue>) {
        let v = TIFFValue::Ascii(vec![self.0.clone()]);
        proof {
            assert(v@ =~~= ValueView::Ascii(seq![self.0@]));
        }
        Some(v)
    }

    proof fn lemma_field_roundtrip(w: Seq<char>) {
    }
}


/// A string that describes the subject of the image.
/// Accepts and encodes Ascii; the field holds the first string.
#[derive(Debug)]
pub struct ImageDescription(pub String);

impl View for ImageDescription {
    type V = Seq<char>;

    open spec fn view(&self) -> Seq<char> {
        self.0@
    }
}

impl Field for ImageDescription {
    open spec fn spec_tag() -> Tag {
        Tag::ImageDescription
    }

    open spec fn spec_decode(v: ValueView) -> Option<Seq<char>> {
        match v {
            ValueView::Ascii(el) => if el.len() >= 1 {
                Some(el[0])
            } else {
                None
            },
            _ => None,
        }
    }

    open spec fn spec_encode(w: Seq<char>) -> Option<ValueView> {
        Some(ValueView::Ascii(seq![w]))
    }

    fn tag() -> Tag {
        Tag::ImageDescription
    }

    fn decode_from_value(value: &TIFFValue) -> (r: Option<ImageDescription>) {
        match value {
            TIFFValue::Ascii(el) => if el.len() >= 1 {
                let s = el[0].clone();
                proof {
                    assert(value@ == ValueView::Ascii(el.deep_view()));
                    assert(el.deep_view()[0] == el@[0]@);
                }
                Some(ImageDescription(s))
            } else {
                proof {
                    assert(el.deep_view().len() == el@.len());
                }
                None
            },
            _ => None,
        }
    }

    fn encode_to_value(&self) -> (r: Option<TIFFValue>) {
        let v = TIFFValue::Ascii(vec![self.0.clone()]);
        proof {
            assert(v@ =~~= ValueView::Ascii(seq![self.0@]));
        }
        Some(v)
    }

    proof fn lemma_field_roundtrip(w: Seq<char>) {
    }
}


/// The scanner manufacturer.
/// Accepts and encodes Ascii; the field holds the first string.
#[derive(Debug)]
pub struct Make(pub String);

impl View for Make {
    type V = Seq<char>;

    open spec fn view(&self) -> Seq<char> {
        self.0@
    }
}

impl Field for Make {
    open spec fn spec_tag() -> Tag {
        Tag::Make
    }

    open spec fn spec_decode(v: ValueView) -> Option<Seq<char>> {
        match v {
            ValueView::Ascii(el) => if el.len() >= 1 {
                Some(el[0])
            } else {
                None
            },
            _ => None,
        }
    }

    open spec fn spec_encode(w: Seq<char>) -> Option<ValueView> {
        Some(ValueView::Ascii(seq![w]))
    }

    fn tag() -> Tag {
        Tag::Make
    }

    fn decode_from_value(value: &TIFFValue) -> (r: Option<Make>) {
        match value {
            TIFFValue::Ascii(el) => if el.len() >= 1 {
                let s = el[0].clone();
                proof {
                    assert(value@ == ValueView::Ascii(el.deep_view()));
                    assert(el.deep_view()[0] == el@[0]@);
                }
                Some(Make(s))
            } else {
                proof {
                    assert(el.deep_view().len() == el@.len());
                }
                None
            },
            _ => None,
        }
    }

    fn encode_to_value(&self) -> (r: Option<TIFFValue>) {
        let v = TIFFValue::Ascii(vec![self.0.clone()]);
        proof {
            assert(v@ =~~= ValueView::Ascii(seq![self.0@]));
        }
        Some(v)
    }

    proof fn lemma_field_roundtrip(w: Seq<char>) {
    }
}


/// The scanner model name or number.
/// Accepts and encodes Ascii; the field holds the first string.
#[derive(Debug)]
pub struct Model(pub String);

impl View for Model {
    type V = Seq<char>;

    open spec fn view(&self) -> Seq<char> {
        self.0@
    }
}

impl Field for Model {
    open spec fn spec_tag() -> Tag {
        Tag::Model
    }

    open spec fn spec_decode(v: ValueView) -> Option<Seq<char>> {
        match v {
            ValueView::Ascii(el) => if el.len() >= 1 {
                Some(el[0])
            } else {
                None
            },
            _ => None,
        }
    }

    open spec fn spec_encode(w: Seq<char>) -> Option<ValueView> {
        Some(ValueView::Ascii(seq![w]))
    }

    fn tag() -> Tag {
        Tag::Model
    }

    fn decode_from_value(value: &TIFFValue) -> (r: Option<Model>) {
        match value {
            TIFFValue::Ascii(el) => if el.len() >= 1 {
                let s = el[0].clone();
                proof {
                    assert(value@ == ValueView::Ascii(el.deep_view()));
                    assert(el.deep_view()[0] == el@[0]@);
                }
                Some(Model(s))
            } else {
                proof {
                    assert(el.deep_view().len() == el@.len());
                }
                None
            },
            _ => None,
        }
    }

    fn encode_to_value(&self) -> (r: Option<TIFFValue>) {
        let v = TIFFValue::Ascii(vec![self.0.clone()]);
        proof {
            assert(v@ =~~= ValueView::Ascii(seq![self.0@]));
        }
        Some(v)
    }

    proof fn lemma_field_roundtrip(w: Seq<char>) {
    }
}


/// The name of the document from which this image was scanned.
/// Accepts and encodes Ascii; the field holds the first string.
#[derive(Debug)]
pub struct DocumentName(pub String);

impl View for DocumentName {
    type V = Seq<char>;

    open spec fn view(&self) -> Seq<char> {
        self.0@
    }
}

impl Field for DocumentName {
    open spec fn spec_tag() -> Tag {
        Tag::DocumentName
    }

    open spec fn spec_decode(v: ValueView) -> Option<Seq<char>> {
        match v {
            ValueView::Ascii(el) => if el.len() >= 1 {
                Some(el[0])
            } else {
                None
            },
            _ => None,
        }
    }

    open spec fn spec_encode(w: Seq<char>) -> Option<ValueView> {
        Some(ValueView::Ascii(seq![w]))
    }

    fn tag() -> Tag {
        Tag::DocumentName
    }

    fn decode_from_value(value: &TIFFValue) -> (r: Option<DocumentName>) {
        match value {
            TIFFValue::Ascii(el) => if el.len() >= 1 {
                let s = el[0].clone();
                proof {
                    assert(value@ == ValueView::Ascii(el.deep_view()));
                    assert(el.deep_view()[0] == el@[0]@);
                }
                Some(DocumentName(s))
            } else {
                proof {
                    assert(el.deep_view().len() == el@.len());
                }
                None
            },
            _ => None,
        }
    }

    fn encode_to_value(&self) -> (r: Option<TIFFValue>) {
        let v = TIFFValue::Ascii(vec![self.0.clone()]);
        proof {
            assert(v@ =~~= ValueView::Ascii(seq![self.0@]));
        }
        Some(v)
    }

    proof fn lemma_field_roundtrip(w: Seq<char>) {
    }
}


/// The name of the page from which this image was scanned.
/// Accepts and encodes Ascii; the field holds the first string.
#[derive(Debug)]
pub struct PageName(pub String);

impl View for PageName {
    type V = Seq<char>;

    open spec fn view(&self) -> Seq<char> {
        self.0@
    }
}

impl Field for PageName {
    open spec fn spec_tag() -> Tag {
        Tag::PageName
    }

    open spec fn spec_decode(v: ValueView) -> Option<Seq<char>> {
        match v {
            ValueView::Ascii(el) => if el.len() >= 1 {
                Some(el[0])
            } else {
                None
            },
            _ => None,
        }
    }

    open spec fn spec_encode(w: Seq<char>) -> Option<ValueView> {
        Some(ValueView::Ascii(seq![w]))
    }

    fn tag() -> Tag {
        Tag::PageName
    }

    fn decode_from_value(value: &TIFFValue) -> (r: Option<PageName>) {
        match value {
            TIFFValue::Ascii(el) => if el.len() >= 1 {
                let s = el[0].clone();
                proof {
                    assert(value@ == ValueView::Ascii(el.deep_view()));
                    assert(el.deep_view()[0] == el@[0]@);
                }
                Some(PageName(s))
            } else {
                proof {
                    assert(el.deep_view().len() == el@.len());
                }
                None
            },
            _ => None,
        }
    }

    fn encode_to_value(&self) -> (r: Option<TIFFValue>) {
        let v = TIFFValue::Ascii(vec![self.0.clone()]);
        proof {
            assert(v@ =~~= ValueView::Ascii(seq![self.0@]));
        }
        Some(v)
    }

    proof fn lemma_field_roundtrip(w: Seq<char>) {
    }
}


/// The name of each ink used in a separated image.
/// Accepts and encodes Ascii; the field holds the first string.
#[derive(Debug)]
pub struct InkNames(pub String);

impl View for InkNames {
    type V = Seq<char>;

    open spec fn view(&self) -> Seq<char> {
        self.0@
    }
}

impl Field for InkNames {
    open spec fn spec_tag() -> Tag {
        Tag::InkNames
    }

    open spec fn spec_decode(v: ValueView) -> Option<Seq<char>> {
        match v {
            ValueView::Ascii(el) => if el.len() >= 1 {
                Some(el[0])
            } else {
                None
            },
            _ => None,
        }
    }

    open spec fn spec_encode(w: Seq<char>) -> Option<ValueView> {
        Some(ValueView::Ascii(seq![w]))
    }

    fn tag() -> Tag {
        Tag::InkNames
    }

    fn decode_from_value(value: &TIFFValue) -> (r: Option<InkNames>) {
        match value {
            TIFFValue::Ascii(el) => if el.len() >= 1 {
                let s = el[0].clone();
                proof {
                    assert(value@ == ValueView::Ascii(el.deep_view()));
                    assert(el.deep_view()[0] == el@[0]@);
                }
                Some(InkNames(s))
            } else {
                proof {
                    assert(el.deep_view().len() == el@.len());
                }
                None
            },
            _ => None,
        }
    }

    fn encode_to_value(&self) -> (r: Option<TIFFValue>) {
        let v = TIFFValue::Ascii(vec![self.0.clone()]);
        proof {
            assert(v@ =~~= ValueView::Ascii(seq![self.0@]));
        }
        Some(v)
    }

    proof fn lemma_field_roundtrip(w: Seq<char>) {
    }
}


/// A description of the printing environment for which this separation is intended.
/// Accepts and encodes Ascii; the field holds the first string.
#[derive(Debug)]
pub struct TargetPrinter(pub String);

impl View for TargetPrinter {
    type V = Seq<char>;

    open spec fn view(&self) -> Seq<char> {
        self.0@
    }
}

impl Field for TargetPrinter {
    open spec fn spec_tag() -> Tag {
        Tag::TargetPrinter
    }

    open spec fn spec_decode(v: ValueView) -> Option<Seq<char>> {
        match v {
            ValueView::Ascii(el) => if el.len() >= 1 {
                Some(el[0])
            } else {
                None
            },
            _ => None,
        }
    }

    open spec fn spec_encode(w: Seq<char>) -> Option<ValueView> {
        Some(ValueView::Ascii(seq![w]))
    }

    fn tag() -> Tag {
        Tag::TargetPrinter
    }

    fn decode_from_value(value: &TIFFValue) -> (r: Option<TargetPrinter>) {
        match value {
            TIFFValue::Ascii(el) => if el.len() >= 1 {
                let s = el[0].clone();
                proof {
                    assert(value@ == ValueView::Ascii(el.deep_view()));
                    assert(el.deep_view()[0] == el@[0]@);
                }
                Some(TargetPrinter(s))
            } else {
                proof {
                    assert(el.deep_view().len() == el@.len());
                }
                None
            },
            _ => None,
        }
    }

    fn encode_to_value(&self) -> (r: Option<TIFFValue>) {
        let v = TIFFValue::Ascii(vec![self.0.clone()]);
        proof {
            assert(v@ =~~= ValueView::Ascii(seq![self.0@]));
        }
        Some(v)
    }

    proof fn lemma_field_roundtrip(w: Seq<char>) {
    }
}


/// The interpretation of one extra component: unspecified data, associated
/// (premultiplied) alpha, or unassociated alpha.
#[derive(Debug, PartialEq, Eq, Clone, Copy, Structural)]
pub enum ExtraSampleDataValue {
    Unspecified,
    AssociatedAlpha,
    UnassociatedAlpha,
}

/// The wire code of an extra-sample interpretation.
pub open spec fn spec_esdv_code(w: ExtraSampleDataValue) -> u16 {
    match w {
        ExtraSampleDataValue::Unspecified => 0,
        ExtraSampleDataValue::AssociatedAlpha => 1,
        ExtraSampleDataValue::UnassociatedAlpha => 2,
    }
}

/// The interpretation a wire code at most 2 resolves to.
pub open spec fn spec_esdv_from(c: u16) -> ExtraSampleDataValue {
    if c == 0 {
        ExtraSampleDataValue::Unspecified
    } else if c == 1 {
        ExtraSampleDataValue::AssociatedAlpha
    } else {
        ExtraSampleDataValue::UnassociatedAlpha
    }
}

impl ExtraSampleDataValue {
    /// The interpretation a wire code resolves to; codes above 2 are not
    /// extra-sample interpretations.
    pub fn from_value(value: u16) -> (r: ExtraSampleDataValue)
        requires
            value <= 2,
        ensures
            r == spec_esdv_from(value),
    {
        if value == 0 {
            ExtraSampleDataValue::Unspecified
        } else if value == 1 {
            ExtraSampleDataValue::AssociatedAlpha
        } else {
            ExtraSampleDataValue::UnassociatedAlpha
        }
    }

    /// The wire code of this interpretation.
    pub fn to_value(&self) -> (r: u16)
        ensures
            r == spec_esdv_code(*self),
    {
        match self {
            ExtraSampleDataValue::Unspecified => 0,
            ExtraSampleDataValue::AssociatedAlpha => 1,
            ExtraSampleDataValue::UnassociatedAlpha => 2,
        }
    }
}

/// Description of extra components: one interpretation per extra sample.
/// Accepts Short with every element at most 2; encodes as Short.
#[derive(Debug)]
pub struct ExtraSamples(pub Vec<ExtraSampleDataValue>);

impl View for ExtraSamples {
    type V = Seq<ExtraSampleDataValue>;

    open spec fn view(&self) -> Seq<ExtraSampleDataValue> {
        self.0@
    }
}

impl Field for ExtraSamples {
    open spec fn spec_tag() -> Tag {
        Tag::ExtraSamples
    }

    open spec fn spec_decode(v: ValueView) -> Option<Seq<ExtraSampleDataValue>> {
        match v {
            ValueView::Short(el) => if forall|i: int|
                0 <= i < el.len() ==> (#[trigger] el[i]) <= 2 {
                Some(Seq::new(el.len(), |i: int| spec_esdv_from(el[i])))
            } else {
                None
            },
            _ => None,
        }
    }

    open spec fn spec_encode(w: Seq<ExtraSampleDataValue>) -> Option<ValueView> {
        Some(ValueView::Short(Seq::new(w.len(), |i: int| spec_esdv_code(w[i]))))
    }

    fn tag() -> Tag {
        Tag::ExtraSamples
    }

    fn decode_from_value(value: &TIFFValue) -> (r: Option<ExtraSamples>) {
        match value {
            TIFFValue::Short(el) => {
                let mut out: Vec<ExtraSampleDataValue> = Vec::new();
                let mut i: usize = 0;
                let n = el.len();
                while i < n
                    invariant
                        n == el@.len(),
                        i <= n,
                        value@ == ValueView::Short(el@),
                        out@.len() == i as int,
                        forall|k: int| 0 <= k < i ==> (#[trigger] el@[k]) <= 2,
                        forall|k: int|
                            0 <= k < i ==> #[trigger] out@[k] == spec_esdv_from(el@[k]),
                    decreases n - i,
                {
                    if el[i] > 2 {
                        proof {
                            assert((#[trigger] el@[i as int]) > 2);
                        }
                        return None;
                    }
                    out.push(ExtraSampleDataValue::from_value(el[i]));
                    i = i + 1;
                }
                proof {
                    assert(out@ =~= Seq::new(el@.len(), |i: int| spec_esdv_from(el@[i])));
                }
                Some(ExtraSamples(out))
            },
            _ => None,
        }
    }

    fn encode_to_value(&self) -> (r: Option<TIFFValue>) {
        let mut out: Vec<u16> = Vec::new();
        let mut i: usize = 0;
        let n = self.0.len();
        while i < n
            invariant
                n == self.0@.len(),
                i <= n,
                out@.len() == i as int,
                forall|k: int| 0 <= k < i ==> #[trigger] out@[k] == spec_esdv_code(self.0@[k]),
            decreases n - i,
        {
            out.push(self.0[i].to_value());
            i = i + 1;
        }
        let v = TIFFValue::Short(out);
        proof {
            assert(v@ =~~= ValueView::Short(
                Seq::new(self.0@.len(), |i: int| spec_esdv_code(self.0@[i])),
            ));
        }
        Some(v)
    }

    proof fn lemma_field_roundtrip(w: Seq<ExtraSampleDataValue>) {
        let codes = Seq::new(w.len(), |i: int| spec_esdv_code(w[i]));
        assert forall|i: int| 0 <= i < codes.len() implies (#[trigger] codes[i]) <= 2 by {
        }
        assert(Seq::new(codes.len(), |i: int| spec_esdv_from(codes[i])) =~= w);
    }
}

impl Default for ResolutionUnit {
    /// The default resolution unit.
    fn default() -> (r: ResolutionUnit)
        ensures
            r == ResolutionUnit::Centimeter,
    {
        ResolutionUnit::Centimeter
    }
}

impl Default for SamplesPerPixel {
    /// The default number of components per pixel.
    fn default() -> (r: SamplesPerPixel)
        ensures
            r@ == 1,
    {
        SamplesPerPixel(1)
    }
}

impl Default for FillOrder {
    /// The default bit order.
    fn default() -> (r: FillOrder)
        ensures
            r == FillOrder::LowerColumnsToHigherOrderBits,
    {
        FillOrder::LowerColumnsToHigherOrderBits
    }
}

impl Default for GrayResponseUnit {
    /// The default gray-response precision.
    fn default() -> (r: GrayResponseUnit)
        ensures
            r == GrayResponseUnit::HundredthsOfUnit,
    {
        GrayResponseUnit::HundredthsOfUnit
    }
}

impl Default for NumberOfInks {
    /// The default number of inks.
    fn default() -> (r: NumberOfInks)
        ensures
            r@ == 4,
    {
        NumberOfInks(4)
    }
}


/// Date and time of image creation, modelled as plain calendar fields.
/// On the wire it is an Ascii field holding exactly `YYYY:MM:DD HH:MM:SS`.
#[derive(Debug, Copy, Clone, PartialEq, Eq, Structural)]
pub struct DateTime {
    pub year: u16,
    pub month: u8,
    pub day: u8,
    pub hour: u8,
    pub minute: u8,
    pub second: u8,
}

impl DateTime {
    /// The calendar fields lie in their wire-representable ranges.
    pub open spec fn spec_valid(self) -> bool {
        &&& self.year <= 9999
        &&& 1 <= self.month <= 12
        &&& 1 <= self.day <= 31
        &&& self.hour <= 23
        &&& self.minute <= 59
        &&& self.second <= 59
    }

    /// Whether the calendar fields lie in their wire-representable ranges.
    pub fn is_valid(&self) -> (r: bool)
        ensures
            r == self.spec_valid(),
    {
        self.year <= 9999 && 1 <= self.month && self.month <= 12 && 1 <= self.day && self.day
            <= 31 && self.hour <= 23 && self.minute <= 59 && self.second <= 59
    }
}

/// The ASCII byte of a decimal digit.
pub open spec fn spec_digit_byte(n: int) -> u8 {
    (0x30 + n) as u8
}

/// The nineteen bytes `YYYY:MM:DD HH:MM:SS` of a date and time.
pub open spec fn spec_datetime_bytes(dt: DateTime) -> Seq<u8> {
    seq![
        spec_digit_byte(dt.year as int / 1000),
        spec_digit_byte((dt.year as int / 100) % 10),
        spec_digit_byte((dt.year as int / 10) % 10),
        spec_digit_byte(dt.year as int % 10),
        0x3a,
        spec_digit_byte(dt.month as int / 10),
        spec_digit_byte(dt.month as int % 10),
        0x3a,
        spec_digit_byte(dt.day as int / 10),
        spec_digit_byte(dt.day as int % 10),
        0x20,
        spec_digit_byte(dt.hour as int / 10),
        spec_digit_byte(dt.hour as int % 10),
        0x3a,
        spec_digit_byte(dt.minute as int / 10),
        spec_digit_byte(dt.minute as int % 10),
        0x3a,
        spec_digit_byte(dt.second as int / 10),
        spec_digit_byte(dt.second as int % 10),
    ]
}

/// The characters of the wire form of a date and time.
pub open spec fn spec_format_datetime(dt: DateTime) -> Seq<char> {
    crate::value::spec_bytes_chars(spec_datetime_bytes(dt))
}

/// Whether a byte is a decimal digit.
pub open spec fn spec_is_digit(b: u8) -> bool {
    0x30 <= b <= 0x39
}

/// The value of a decimal digit byte.
pub open spec fn spec_digit_val(b: u8) -> int {
    b - 0x30
}

/// Whether nineteen bytes have the shape `YYYY:MM:DD HH:MM:SS`.
pub open spec fn spec_datetime_shape(b: Seq<u8>) -> bool {
    &&& b.len() == 19
    &&& spec_is_digit(b[0]) && spec_is_digit(b[1]) && spec_is_digit(b[2]) && spec_is_digit(b[3])
    &&& b[4] == 0x3a
    &&& spec_is_digit(b[5]) && spec_is_digit(b[6])
    &&& b[7] == 0x3a
    &&& spec_is_digit(b[8]) && spec_is_digit(b[9])
    &&& b[10] == 0x20
    &&& spec_is_digit(b[11]) && spec_is_digit(b[12])
    &&& b[13] == 0x3a
    &&& spec_is_digit(b[14]) && spec_is_digit(b[15])
    &&& b[16] == 0x3a
    &&& spec_is_digit(b[17]) && spec_is_digit(b[18])
}

/// The date and time encoded by bytes of the right shape.
pub open spec fn spec_datetime_of_bytes(b: Seq<u8>) -> DateTime {
    DateTime {
        year: (spec_digit_val(b[0]) * 1000 + spec_digit_val(b[1]) * 100 + spec_digit_val(b[2])
            * 10 + spec_digit_val(b[3])) as u16,
        month: (spec_digit_val(b[5]) * 10 + spec_digit_val(b[6])) as u8,
        day: (spec_digit_val(b[8]) * 10 + spec_digit_val(b[9])) as u8,
        hour: (spec_digit_val(b[11]) * 10 + spec_digit_val(b[12])) as u8,
        minute: (spec_digit_val(b[14]) * 10 + spec_digit_val(b[15])) as u8,
        second: (spec_digit_val(b[17]) * 10 + spec_digit_val(b[18])) as u8,
    }
}

/// Parsing a string as `YYYY:MM:DD HH:MM:SS`: the characters must be the
/// bytes of that shape and the calendar fields must be in range.
pub open spec fn spec_parse_datetime(s: Seq<char>) -> Option<DateTime> {
    let b = crate::value::spec_str_bytes(s);
    let all_ascii = forall|i: int| 0 <= i < s.len() ==> ((#[trigger] s[i]) as u32) < 0x80;
    if s.len() == 19 && all_ascii && spec_datetime_shape(b) {
        let dt = spec_datetime_of_bytes(b);
        if dt.spec_valid() {
            Some(dt)
        } else {
            None
        }
    } else {
        None
    }
}

/// A four-digit number splits into its decimal digits.
proof fn lemma_four_digits(y: int)
    by (nonlinear_arith)
    requires
        0 <= y <= 9999,
    ensures
        (y / 1000) * 1000 + ((y / 100) % 10) * 100 + ((y / 10) % 10) * 10 + y % 10 == y,
        0 <= y / 1000 <= 9,
        0 <= (y / 100) % 10 <= 9,
        0 <= (y / 10) % 10 <= 9,
        0 <= y % 10 <= 9,
{
}

/// A two-digit number splits into its decimal digits.
proof fn lemma_two_digits(y: int)
    by (nonlinear_arith)
    requires
        0 <= y <= 99,
    ensures
        (y / 10) * 10 + y % 10 == y,
        0 <= y / 10 <= 9,
        0 <= y % 10 <= 9,
{
}

impl View for DateTime {
    type V = DateTime;

    open spec fn view(&self) -> DateTime {
        *self
    }
}

impl Field for DateTime {
    open spec fn spec_tag() -> Tag {
        Tag::DateTime
    }

    open spec fn spec_decode(v: ValueView) -> Option<DateTime> {
        match v {
            ValueView::Ascii(el) => if el.len() >= 1 {
                spec_parse_datetime(el[0])
            } else {
                None
            },
            _ => None,
        }
    }

    open spec fn spec_encode(w: DateTime) -> Option<ValueView> {
        if w.spec_valid() {
            Some(ValueView::Ascii(seq![spec_format_datetime(w)]))
        } else {
            None
        }
    }

    fn tag() -> Tag {
        Tag::DateTime
    }

    fn decode_from_value(value: &TIFFValue) -> (r: Option<DateTime>) {
        match value {
            TIFFValue::Ascii(el) => {
                if el.len() < 1 {
                    proof {
                        assert(el.deep_view().len() == el@.len());
                    }
                    return None;
                }
                let s = &el[0];
                let ghost sc = s@;
                proof {
                    assert(value@ == ValueView::Ascii(el.deep_view()));
                    assert(el.deep_view()[0] == el@[0]@);
                }
                if !s.is_ascii() {
                    proof {
                        if forall|i: int|
                            0 <= i < sc.len() ==> ((#[trigger] sc[i]) as u32) < 0x80 {
                            assert forall|i: int|
                                0 <= i < sc.len() implies '\0' <= (#[trigger] sc[i]) && sc[i]
                                <= '\u{7f}' by {
                                let c = sc[i];
                                assert((c as u32) < 0x80);
                                lemma_char_seven_bit(c);
                            }
                        }
                    }
                    return None;
                }
                let bytes = s.as_bytes_vec();
                proof {
                    vstd::utf8::is_ascii_chars_encode_utf8(sc);
                    assert(bytes@ =~= crate::value::spec_str_bytes(sc));
                    assert forall|i: int|
                        0 <= i < sc.len() implies ((#[trigger] sc[i]) as u32) < 0x80 by {
                        vstd::utf8::is_ascii_chars_nat_bound(sc);
                        assert((sc[i] as nat) < 128);
                    }
                }
                if bytes.len() != 19 {
                    return None;
                }
                let ok = is_digit(bytes[0]) && is_digit(bytes[1]) && is_digit(bytes[2])
                    && is_digit(bytes[3]) && bytes[4] == 0x3a && is_digit(bytes[5]) && is_digit(
                    bytes[6],
                ) && bytes[7] == 0x3a && is_digit(bytes[8]) && is_digit(bytes[9]) && bytes[10]
                    == 0x20 && is_digit(bytes[11]) && is_digit(bytes[12]) && bytes[13] == 0x3a
                    && is_digit(bytes[14]) && is_digit(bytes[15]) && bytes[16] == 0x3a && is_digit(
                    bytes[17],
                ) && is_digit(bytes[18]);
                if !ok {
                    return None;
                }
                let year: u16 = (bytes[0] - 0x30) as u16 * 1000 + (bytes[1] - 0x30) as u16 * 100
                    + (bytes[2] - 0x30) as u16 * 10 + (bytes[3] - 0x30) as u16;
                let month: u8 = (bytes[5] - 0x30) * 10 + (bytes[6] - 0x30);
                let day: u8 = (bytes[8] - 0x30) * 10 + (bytes[9] - 0x30);
                let hour: u8 = (bytes[11] - 0x30) * 10 + (bytes[12] - 0x30);
                let minute: u8 = (bytes[14] - 0x30) * 10 + (bytes[15] - 0x30);
                let second: u8 = (bytes[17] - 0x30) * 10 + (bytes[18] - 0x30);
                let dt = DateTime { year, month, day, hour, minute, second };
                proof {
                    assert(spec_datetime_shape(bytes@));
                    assert(dt == spec_datetime_of_bytes(bytes@));
                }
                if dt.is_valid() {
                    Some(dt)
                } else {
                    None
                }
            },
            _ => None,
        }
    }

    fn encode_to_value(&self) -> (r: Option<TIFFValue>) {
        if !self.is_valid() {
            return None;
        }
        let mut b: Vec<u8> = Vec::new();
        b.push((self.year / 1000) as u8 + 0x30);
        b.push(((self.year / 100) % 10) as u8 + 0x30);
        b.push(((self.year / 10) % 10) as u8 + 0x30);
        b.push((self.year % 10) as u8 + 0x30);
        b.push(0x3a);
        b.push((self.month / 10) + 0x30);
        b.push((self.month % 10) + 0x30);
        b.push(0x3a);
        b.push((self.day / 10) + 0x30);
        b.push((self.day % 10) + 0x30);
        b.push(0x20);
        b.push((self.hour / 10) + 0x30);
        b.push((self.hour % 10) + 0x30);
        b.push(0x3a);
        b.push((self.minute / 10) + 0x30);
        b.push((self.minute % 10) + 0x30);
        b.push(0x3a);
        b.push((self.second / 10) + 0x30);
        b.push((self.second % 10) + 0x30);
        proof {
            assert(b@ =~= spec_datetime_bytes(*self));
            assert forall|i: int|
                0 <= i < b@.len() implies (#[trigger] b@[i]) < 0x80 by {
                lemma_four_digits(self.year as int);
                lemma_two_digits(self.month as int);
                lemma_two_digits(self.day as int);
                lemma_two_digits(self.hour as int);
                lemma_two_digits(self.minute as int);
                lemma_two_digits(self.second as int);
            }
        }
        let s = crate::value::ascii_bytes_to_string(b);
        let v = TIFFValue::Ascii(vec![s]);
        proof {
            assert(v@ =~~= ValueView::Ascii(seq![spec_format_datetime(*self)]));
        }
        Some(v)
    }

    proof fn lemma_field_roundtrip(w: DateTime) {
        if w.spec_valid() {
            let bytes = spec_datetime_bytes(w);
            let s = spec_format_datetime(w);
            lemma_four_digits(w.year as int);
            lemma_two_digits(w.month as int);
            lemma_two_digits(w.day as int);
            lemma_two_digits(w.hour as int);
            lemma_two_digits(w.minute as int);
            lemma_two_digits(w.second as int);
            assert forall|i: int| 0 <= i < bytes.len() implies (#[trigger] bytes[i]) < 0x80 by {
            }
            assert forall|i: int|
                0 <= i < s.len() implies ((#[trigger] s[i]) as u32) < 0x80 && (s[i] as u8)
                == bytes[i] by {
                crate::value::lemma_byte_char_pub(bytes[i]);
            }
            assert(crate::value::spec_str_bytes(s) =~= bytes);
            assert(spec_datetime_shape(bytes));
            assert(spec_datetime_of_bytes(bytes) == w);
            assert(spec_parse_datetime(s) == Some(w));
        }
    }
}

/// A positive 7-bit code point lies between NUL and 0x7f in character order.
proof fn lemma_char_seven_bit(c: char)
    requires
        (c as u32) < 0x80,
    ensures
        '\0' <= c,
        c <= '\u{7f}',
{
}

/// Whether a byte is a decimal digit.
fn is_digit(b: u8) -> (r: bool)
    ensures
        r == spec_is_digit(b),
{
    0x30 <= b && b <= 0x39
}

} // verus!
