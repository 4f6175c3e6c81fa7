//! A whole-file facade: parses a TIFF stream once and resolves typed fields
//! by searching every directory in order.

use vstd::prelude::*;

use crate::endian::Endian;
use crate::error::TiffError;
use crate::ifd::IFD;
use crate::ifd::IFDEntry;
use crate::ifd::spec_find_entry;
use crate::reader::TIFFReader;
use crate::tag::Field;
use crate::tag::Tag;
use crate::value::TIFFValue;
use crate::value::ValueView;
use crate::value::spec_decode_value;
use crate::value::spec_entry_payload;

verus! {

/// The entry the first directory holding a tag resolves it to, searching
/// directories in order.
pub open spec fn spec_find_in_ifds(ifds: Seq<IFD>, tag: Tag) -> Option<IFDEntry>
    decreases ifds.len(),
{
    if ifds.len() == 0 {
        None
    } else {
        match spec_find_entry(ifds[0].spec_entries(), tag) {
            Some(e) => Some(e),
            None => spec_find_in_ifds(ifds.drop_first(), tag),
        }
    }
}

/// A parsed TIFF stream whose field lookups search all directories.
pub struct TIFF {
    reader: TIFFReader,
}

impl TIFF {
    /// The bytes of the stream.
    pub closed spec fn spec_data(&self) -> Seq<u8> {
        self.reader.spec_data()
    }

    /// The decoded directories.
    pub closed spec fn spec_ifds(&self) -> Seq<IFD> {
        self.reader.spec_ifds()
    }

    /// The discovered byte order.
    pub closed spec fn spec_endian(&self) -> Endian {
        self.reader.spec_endian()
    }

    /// A facade is well-formed when its underlying reader is.
    pub closed spec fn wf(&self) -> bool {
        self.reader.wf()
    }

    /// Creates a new TIFF facade from the bytes of a stream, with the same
    /// header validation and chain walk as the reader.
    pub fn new(data: Vec<u8>) -> (r: Result<TIFF, TiffError>)
        ensures
            match r {
                Ok(t) => {
                    &&& crate::reader::spec_read_ok(data@)
                    &&& t.wf()
                    &&& t.spec_data() == data@
                    &&& match crate::reader::spec_parse_header(data@) {
                        Some(h) => {
                            &&& t.spec_endian() == h.0
                            &&& t.spec_ifds().len() >= 1
                            &&& crate::reader::spec_dirs_match(
                                t.spec_ifds(),
                                crate::ifd::spec_parse_chain(h.0, data@, h.1 as int),
                            )
                        },
                        None => false,
                    }
                },
                Err(e) => {
                    &&& !crate::reader::spec_read_ok(data@)
                    &&& (data@.len() < 8 ==> e == TiffError::UnexpectedEof)
                    &&& (data@.len() >= 8 && crate::reader::spec_header_endian(data@) is None
                        ==> e == TiffError::InvalidEndianMagic)
                    &&& (crate::reader::spec_header_endian(data@) is Some
                        && crate::reader::spec_parse_header(data@) is None ==> e
                        == TiffError::InvalidMagicNumber)
                    &&& (crate::reader::spec_parse_header(data@) is Some ==> e
                        == TiffError::NoDirectory)
                },
            },
    {
        match TIFFReader::new(data) {
            Ok(reader) => Ok(TIFF { reader }),
            Err(e) => Err(e),
        }
    }

    /// Returns the endianness of the processed input.
    pub fn endianness(&self) -> (r: Endian)
        ensures
            r == self.spec_endian(),
    {
        self.reader.endianness()
    }

    /// Returns a reference to the IFD directories contained inside the
    /// stream.
    pub fn directory_entries(&self) -> (r: &Vec<IFD>)
        ensures
            r@ == self.spec_ifds(),
    {
        self.reader.ifds_ref()
    }

    /// Access to the IFDs contained inside the image.
    pub fn ifds(&self) -> (r: &Vec<IFD>)
        ensures
            r@ == self.spec_ifds(),
    {
        self.reader.ifds_ref()
    }

    /// Looks a typed field up across all directories: the first directory
    /// holding the field's tag resolves it; its value is decoded from the
    /// stream and run through the field's decoding rule.
    pub fn get_tiff_value<T: Field>(&self) -> (r: Option<T>)
        requires
            self.wf(),
        ensures
            match spec_find_in_ifds(self.spec_ifds(), T::spec_tag()) {
                None => r is None,
                Some(entry) => match spec_entry_payload(
                    self.spec_data(),
                    self.spec_endian(),
                    entry.value_type,
                    entry.count,
                    entry.value_offset,
                ) {
                    Some(b) => match spec_decode_value(self.spec_endian(), entry.value_type, b) {
                        Some(v) => match T::spec_decode(v) {
                            Some(w) => r matches Some(f) && f@ == w,
                            None => r is None,
                        },
                        None => r is None,
                    },
                    None => r is None,
                },
            },
    {
        let tag = T::tag();
        let ifds = self.reader.ifds_ref();
        let n = ifds.len();
        let mut i: usize = 0;
        proof {
            assert(self.spec_ifds().skip(0) =~= self.spec_ifds());
        }
        while i < n
            invariant
                self.wf(),
                n == self.spec_ifds().len(),
                i <= n,
                ifds@ == self.spec_ifds(),
                tag == T::spec_tag(),
                spec_find_in_ifds(self.spec_ifds(), tag) == spec_find_in_ifds(
                    self.spec_ifds().skip(i as int),
                    tag,
                ),
            decreases n - i,
        {
            proof {
                assert(self.spec_ifds().skip(i as int)[0] == self.spec_ifds()[i as int]);
                assert(self.spec_ifds().skip(i as int).drop_first() =~= self.spec_ifds().skip(
                    i as int + 1,
                ));
            }
            match ifds[i].get_entry_from_tag(tag) {
                Some(entry) => {
                    let value = match TIFFValue::new_from_entry(
                        self.reader.data_ref(),
                        &entry,
                        self.reader.endianness(),
                    ) {
                        Ok(v) => v,
                        Err(_) => {
                            return None;
                        },
                    };
                    return T::decode_from_value(&value);
                },
                None => {
                },
            }
            i = i + 1;
        }
        proof {
            assert(self.spec_ifds().skip(n as int) =~= Seq::<IFD>::empty());
        }
        None
    }
}

} // verus!
