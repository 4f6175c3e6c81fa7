//! A baseline image facade: opens a TIFF stream, resolves the strip
//! placement fields, and hands out raw strip byte ranges one by one.

use vstd::prelude::*;

use crate::error::TiffError;
use crate::reader::TIFFReader;
use crate::tag::Field;
use crate::tag::StripByteCounts;
use crate::tag::StripOffsets;
use crate::tag::Tag;
use crate::value::ValueView;

verus! {

/// The decoded value the first directory of a parsed stream yields for a
/// tag: `None` when the stream does not parse, the tag is absent, or its
/// payload cannot be read or decoded.  This is what a reader opened over the
/// stream answers for the tag before any directory selection.
pub open spec fn spec_stream_value(data: Seq<u8>, tag: Tag) -> Option<ValueView> {
    match crate::reader::spec_parse_header(data) {
        Some(h) => {
            let chain = crate::ifd::spec_parse_chain(h.0, data, h.1 as int);
            if chain.len() >= 1 {
                match crate::ifd::spec_find_last(chain[0], tag) {
                    Some(entry) => match crate::value::spec_entry_payload(
                        data,
                        h.0,
                        entry.value_type,
                        entry.count,
                        entry.value_offset,
                    ) {
                        Some(b) => crate::value::spec_decode_value(h.0, entry.value_type, b),
                        None => None,
                    },
                    None => None,
                }
            } else {
                None
            }
        },
        None => None,
    }
}

/// Whether the first directory yields decodable strip placement fields:
/// both `StripOffsets` and `StripByteCounts` resolve to values their field
/// types accept.
pub open spec fn spec_strips_ok(data: Seq<u8>) -> bool {
    &&& match spec_stream_value(data, Tag::StripOffsets) {
        Some(v) => StripOffsets::spec_decode(v) is Some,
        None => false,
    }
    &&& match spec_stream_value(data, Tag::StripByteCounts) {
        Some(v) => StripByteCounts::spec_decode(v) is Some,
        None => false,
    }
}

/// A baseline image: the parsed stream together with its strip offsets and
/// strip byte counts.
pub struct Image {
    inner: TIFFReader,
    stripes_offsets: StripOffsets,
    stripes_bytes_count: StripByteCounts,
}

impl Image {
    /// The underlying reader.
    pub closed spec fn spec_reader(&self) -> TIFFReader {
        self.inner
    }

    /// The strip offsets, in strip order.
    pub closed spec fn spec_offsets(&self) -> Seq<u32> {
        self.stripes_offsets@
    }

    /// The strip byte counts, in strip order.
    pub closed spec fn spec_counts(&self) -> Seq<u32> {
        self.stripes_bytes_count@
    }

    /// An image is well-formed when its reader is.
    pub open spec fn wf(&self) -> bool {
        self.spec_reader().wf()
    }

    /// Opens a baseline image: parses the stream and resolves the strip
    /// placement fields of the first directory.  Succeeds exactly when the
    /// stream parses and both `StripOffsets` and `StripByteCounts` decode;
    /// a stream that does not parse reports the reader's error, and one
    /// without both strip fields reports missing stripe information.
    pub fn new(data: Vec<u8>) -> (r: Result<Image, TiffError>)
        ensures
            match r {
                Ok(img) => {
                    &&& crate::reader::spec_read_ok(data@)
                    &&& spec_strips_ok(data@)
                    &&& img.wf()
                    &&& img.spec_reader().spec_data() == data@
                    &&& match spec_stream_value(data@, Tag::StripOffsets) {
                        Some(v) => StripOffsets::spec_decode(v) == Some(img.spec_offsets()),
                        None => false,
                    }
                    &&& match spec_stream_value(data@, Tag::StripByteCounts) {
                        Some(v) => StripByteCounts::spec_decode(v) == Some(img.spec_counts()),
                        None => false,
                    }
                },
                Err(e) => {
                    &&& !(crate::reader::spec_read_ok(data@) && spec_strips_ok(data@))
                    &&& (!crate::reader::spec_read_ok(data@) ==> {
                        &&& (data@.len() < 8 ==> e == TiffError::UnexpectedEof)
                        &&& (data@.len() >= 8 && crate::reader::spec_header_endian(data@) is None
                            ==> e == TiffError::InvalidEndianMagic)
                        &&& (crate::reader::spec_header_endian(data@) is Some
                            && crate::reader::spec_parse_header(data@) is None ==> e
                            == TiffError::InvalidMagicNumber)
                        &&& (crate::reader::spec_parse_header(data@) is Some ==> e
                            == TiffError::NoDirectory)
                    })
                    &&& (crate::reader::spec_read_ok(data@) && !spec_strips_ok(data@) ==> e
                        == TiffError::StripesInformationMissing)
                },
            },
    {
        let ghost data0 = data@;
        let inner = match TIFFReader::new(data) {
            Ok(rd) => rd,
            Err(e) => {
                return Err(e);
            },
        };
        proof {
            lemma_reader_stream_value(&inner, data0, Tag::StripOffsets);
            lemma_reader_stream_value(&inner, data0, Tag::StripByteCounts);
        }
        let stripes_offsets = match inner.get_directory_field::<StripOffsets>() {
            Some(f) => f,
            None => {
                return Err(TiffError::StripesInformationMissing);
            },
        };
        let stripes_bytes_count = match inner.get_directory_field::<StripByteCounts>() {
            Some(f) => f,
            None => {
                return Err(TiffError::StripesInformationMissing);
            },
        };
        Ok(Image { inner, stripes_offsets, stripes_bytes_count })
    }

    /// Turns this image into an iterator over its raw strip payloads.
    pub fn stripes_iter(self) -> (r: StripesIter)
        ensures
            r.spec_image() == self,
            r.spec_index() == 0,
    {
        StripesIter { image: self, index: 0 }
    }
}

/// Walks the strips of an image in order, yielding each strip's raw bytes.
pub struct StripesIter {
    image: Image,
    index: usize,
}

impl StripesIter {
    /// The image being walked.
    pub closed spec fn spec_image(&self) -> Image {
        self.image
    }

    /// The index of the next strip.
    pub closed spec fn spec_index(&self) -> int {
        self.index as int
    }

    /// Yields the raw bytes of the next strip: the byte range named by the
    /// strip's offset and byte count.  An in-range strip whose range lies
    /// within the stream is always produced; a strip whose range leaves the
    /// stream is skipped as `None` with the index advanced; past the last
    /// strip every call returns `None` and leaves the iterator unchanged.
    pub fn next(&mut self) -> (r: Option<Vec<u8>>)
        ensures
            final(self).spec_image() == old(self).spec_image(),
            ({
                let idx = old(self).spec_index();
                let offs = old(self).spec_image().spec_offsets();
                let cnts = old(self).spec_image().spec_counts();
                let data = old(self).spec_image().spec_reader().spec_data();
                if idx < offs.len() && idx < cnts.len() {
                    &&& final(self).spec_index() == idx + 1
                    &&& (if offs[idx] + cnts[idx] <= data.len() {
                        r matches Some(b) && b@ == data.subrange(
                            offs[idx] as int,
                            offs[idx] + cnts[idx],
                        )
                    } else {
                        r is None
                    })
                } else {
                    &&& r is None
                    &&& *final(self) == *old(self)
                }
            }),
    {
        if self.index >= self.image.stripes_bytes_count.0.len()
            || self.index >= self.image.stripes_offsets.0.len() {
            return None;
        }
        let offset = self.image.stripes_offsets.0[self.index];
        let count = self.image.stripes_bytes_count.0[self.index];
        match self.image.inner.raw_bytes(offset, count) {
            Ok(buff) => {
                self.index = self.index + 1;
                Some(buff)
            },
            Err(_) => {
                self.index = self.index + 1;
                None
            },
        }
    }
}

/// A freshly opened reader answers a tag lookup with the stream-level value
/// of the first directory.
proof fn lemma_reader_stream_value(rd: &TIFFReader, data: Seq<u8>, tag: Tag)
    requires
        rd.wf(),
        rd.spec_data() == data,
        rd.spec_current() == 0,
    ensures
        rd.spec_value_for_tag(tag) == spec_stream_value(data, tag),
{
    let h = crate::reader::spec_parse_header(data).unwrap();
    let chain = crate::ifd::spec_parse_chain(h.0, data, h.1 as int);
    assert(crate::reader::spec_dirs_match(rd.spec_ifds(), chain));
    assert(crate::ifd::spec_find_entry(rd.spec_ifds()[0].spec_entries(), tag)
        == crate::ifd::spec_find_last(chain[0], tag));
}

} // verus!
