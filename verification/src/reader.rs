//! The reader facade: parses the 8-byte header, walks the directory chain,
//! and exposes per-directory lookups and raw byte extraction over an
//! in-memory TIFF stream.

use vstd::prelude::*;

use crate::endian::Endian;
use crate::endian::spec_u16_from;
use crate::endian::spec_u32_from;
use crate::error::TiffError;
use crate::ifd::IFD;
use crate::ifd::IFDEntry;
use crate::ifd::IFDIterator;
use crate::ifd::spec_find_entry;
use crate::ifd::spec_find_last;
use crate::ifd::spec_parse_chain;
use crate::tag::Field;
use crate::tag::Tag;
use crate::value::TIFFValue;
use crate::value::ValueView;
use crate::value::spec_decode_value;
use crate::value::spec_entry_payload;

verus! {

/// The byte order named by the first two bytes of a header: `II` for little
/// endian, `MM` for big endian.
pub open spec fn spec_header_endian(data: Seq<u8>) -> Option<Endian> {
    if data.len() >= 8 {
        if data[0] == 0x49 && data[1] == 0x49 {
            Some(Endian::Little)
        } else if data[0] == 0x4d && data[1] == 0x4d {
            Some(Endian::Big)
        } else {
            None
        }
    } else {
        None
    }
}

/// The parsed 8-byte header: the byte order and the absolute offset of the
/// first directory.  `None` when the stream is shorter than eight bytes, the
/// byte-order mark is unknown, or the magic word is not 42.
pub open spec fn spec_parse_header(data: Seq<u8>) -> Option<(Endian, u32)> {
    match spec_header_endian(data) {
        None => None,
        Some(e) => {
            if spec_u16_from(e, data.subrange(2, 4)) == 42 {
                Some((e, spec_u32_from(e, data.subrange(4, 8))))
            } else {
                None
            }
        },
    }
}

/// Each in-memory directory resolves every tag exactly as the corresponding
/// wire directory does under the last-writer-wins rule.
pub open spec fn spec_dirs_match(ifds: Seq<IFD>, chain: Seq<Seq<IFDEntry>>) -> bool {
    &&& ifds.len() == chain.len()
    &&& forall|i: int, t: Tag|
        0 <= i < ifds.len() ==> #[trigger] spec_find_entry(ifds[i].spec_entries(), t)
            == spec_find_last(chain[i], t)
}

/// A whole stream parses when its header parses and its chain holds at least
/// one directory.
pub open spec fn spec_read_ok(data: Seq<u8>) -> bool {
    match spec_parse_header(data) {
        Some(h) => spec_parse_chain(h.0, data, h.1 as int).len() >= 1,
        None => false,
    }
}

/// The reader facade: owns the bytes of a TIFF stream, the decoded directory
/// list, the discovered byte order, and the index of the directory that
/// lookups address.
pub struct TIFFReader {
    data: Vec<u8>,
    ifds: Vec<IFD>,
    endian: Endian,
    current_directory_index: usize,
}

impl TIFFReader {
    /// The bytes of the stream.
    pub closed spec fn spec_data(&self) -> Seq<u8> {
        self.data@
    }

    /// The decoded directories.
    pub closed spec fn spec_ifds(&self) -> Seq<IFD> {
        self.ifds@
    }

    /// The discovered byte order.
    pub closed spec fn spec_endian(&self) -> Endian {
        self.endian
    }

    /// The index of the directory that lookups address.
    pub closed spec fn spec_current(&self) -> int {
        self.current_directory_index as int
    }

    /// A reader is well-formed when it holds at least one directory, the
    /// current index addresses one of them, and the directories are exactly
    /// those of the stream's chain.
    pub open spec fn wf(&self) -> bool {
        &&& self.spec_ifds().len() >= 1
        &&& 0 <= self.spec_current() < self.spec_ifds().len()
        &&& forall|i: int| 0 <= i < self.spec_ifds().len() ==> (#[trigger] self.spec_ifds()[i]).wf()
        &&& match spec_parse_header(self.spec_data()) {
            Some(h) => h.0 == self.spec_endian() && spec_dirs_match(
                self.spec_ifds(),
                spec_parse_chain(h.0, self.spec_data(), h.1 as int),
            ),
            None => false,
        }
    }

    /// Creates a new TIFF reader over the bytes of a stream: reads the
    /// header, determines the byte order, validates the magic word, and walks
    /// the whole directory chain.  Fails with `UnexpectedEof` on a stream
    /// shorter than a header, `InvalidEndianMagic` on an unknown byte-order
    /// mark, `InvalidMagicNumber` when the magic word is not 42, and
    /// `NoDirectory` when the chain holds no directory.
    pub fn new(data: Vec<u8>) -> (r: Result<TIFFReader, TiffError>)
        ensures
            match r {
                Ok(rd) => {
                    &&& spec_read_ok(data@)
                    &&& rd.wf()
                    &&& rd.spec_data() == data@
                    &&& rd.spec_current() == 0
                    &&& match spec_parse_header(data@) {
                        Some(h) => rd.spec_endian() == h.0,
                        None => false,
                    }
                },
                Err(e) => {
                    &&& !spec_read_ok(data@)
                    &&& (data@.len() < 8 ==> e == TiffError::UnexpectedEof)
                    &&& (data@.len() >= 8 && spec_header_endian(data@) is None ==> e
                        == TiffError::InvalidEndianMagic)
                    &&& (spec_header_endian(data@) is Some && spec_parse_header(data@) is None
                        ==> e == TiffError::InvalidMagicNumber)
                    &&& (spec_parse_header(data@) is Some ==> e == TiffError::NoDirectory)
                },
            },
    {
        if data.len() < 8 {
            return Err(TiffError::UnexpectedEof);
        }
        let endian: Endian = if data[0] == 0x49 && data[1] == 0x49 {
            Endian::Little
        } else if data[0] == 0x4d && data[1] == 0x4d {
            Endian::Big
        } else {
            return Err(TiffError::InvalidEndianMagic);
        };
        let magic_bytes: [u8; 2] = [data[2], data[3]];
        proof {
            assert(magic_bytes@ =~= data@.subrange(2, 4));
        }
        let magic: u16 = endian.short_from_bytes(magic_bytes);
        if magic != 42 {
            return Err(TiffError::InvalidMagicNumber);
        }
        let offset_bytes: [u8; 4] = [data[4], data[5], data[6], data[7]];
        proof {
            assert(offset_bytes@ =~= data@.subrange(4, 8));
        }
        let offset: u32 = endian.long_from_bytes(offset_bytes);
        let ghost full = spec_parse_chain(endian, data@, offset as int);
        let mut ifds: Vec<IFD> = Vec::new();
        {
            let mut it = IFDIterator::new(&data, offset as usize, endian);
            let mut going = true;
            proof {
                assert(full.skip(0) =~= full);
                if it.spec_done() {
                    assert(full =~= Seq::<Seq<IFDEntry>>::empty());
                }
            }
            while going
                invariant
                    it.wf(),
                    it.spec_data() == data@,
                    it.spec_endian() == endian,
                    full == spec_parse_chain(endian, data@, offset as int),
                    ifds@.len() <= full.len(),
                    forall|i: int| 0 <= i < ifds@.len() ==> (#[trigger] ifds@[i]).wf(),
                    forall|i: int, t: Tag|
                        0 <= i < ifds@.len() ==> #[trigger] spec_find_entry(
                            ifds@[i].spec_entries(),
                            t,
                        ) == spec_find_last(full[i], t),
                    !it.spec_done() ==> spec_parse_chain(endian, data@, it.spec_offset()) =~= full
                        .skip(ifds@.len() as int),
                    it.spec_done() ==> ifds@.len() == full.len(),
                    !going ==> it.spec_done(),
                decreases
                    (if going {
                        1int
                    } else {
                        0int
                    }),
                    (if it.spec_done() {
                        0int
                    } else {
                        data@.len() - it.spec_offset() + 1
                    }),
            {
                let ghost old_off = it.spec_offset();
                let ghost k = ifds@.len() as int;
                match it.next() {
                    Some(ifd) => {
                        proof {
                            let pr = crate::ifd::spec_parse_ifd(endian, data@, old_off).unwrap();
                            assert(crate::ifd::spec_parse_ifd(endian, data@, old_off) == Some(pr));
                            assert(0 <= old_off <= data@.len());
                            assert(spec_parse_chain(endian, data@, old_off) =~= full.skip(k));
                            assert(spec_parse_chain(endian, data@, old_off)[0] == pr.0);
                            assert(full.skip(k)[0] == full[k]);
                            assert(full[k] == pr.0);
                            if it.spec_done() {
                                assert(spec_parse_chain(endian, data@, old_off) =~= seq![pr.0]);
                                assert(full.len() == k + 1);
                            } else {
                                assert(it.spec_offset() == pr.1 as int);
                                assert(old_off < pr.1 <= data@.len());
                                assert(spec_parse_chain(endian, data@, old_off) =~= seq![pr.0]
                                    + spec_parse_chain(endian, data@, pr.1 as int));
                                assert(full.skip(k).drop_first() =~= full.skip(k + 1));
                                assert((seq![pr.0] + spec_parse_chain(endian, data@, pr.1 as int))
                                    .drop_first() =~= spec_parse_chain(endian, data@, pr.1 as int));
                                assert(spec_parse_chain(endian, data@, pr.1 as int) =~= full.skip(
                                    k + 1,
                                ));
                            }
                        }
                        ifds.push(ifd);
                    },
                    None => {
                        proof {
                            if !it.spec_done() {
                                assert(false);
                            } else {
                                if ifds@.len() < full.len() {
                                    assert(spec_parse_chain(endian, data@, old_off) =~= full.skip(
                                        k,
                                    ));
                                }
                            }
                        }
                        going = false;
                    },
                }
            }
        }
        if ifds.len() == 0 {
            proof {
                assert(full.len() == 0);
            }
            return Err(TiffError::NoDirectory);
        }
        Ok(
            TIFFReader {
                data,
                ifds,
                endian,
                current_directory_index: 0,
            },
        )
    }

    /// Returns the number of available directories.
    pub fn directories_count(&self) -> (r: usize)
        ensures
            r == self.spec_ifds().len(),
    {
        self.ifds.len()
    }

    /// Returns the endianness of the processed input.
    pub fn endianness(&self) -> (r: Endian)
        ensures
            r == self.spec_endian(),
    {
        self.endian
    }

    /// Selects which directory subsequent lookups address.
    pub fn set_directory_index(&mut self, index: usize)
        requires
            old(self).wf(),
            index < old(self).spec_ifds().len(),
        ensures
            final(self).wf(),
            final(self).spec_current() == index as int,
            final(self).spec_data() == old(self).spec_data(),
            final(self).spec_ifds() == old(self).spec_ifds(),
            final(self).spec_endian() == old(self).spec_endian(),
    {
        self.current_directory_index = index;
    }

    /// The list of tags present in the current directory.
    pub fn get_directory_tags(&self) -> (r: Vec<Tag>)
        requires
            self.wf(),
        ensures
            r@.len() == self.spec_ifds()[self.spec_current()].spec_entries().len(),
            forall|i: int|
                0 <= i < r@.len() ==> #[trigger] r@[i] == self.spec_ifds()[self.spec_current()]
                    .spec_entries()[i].tag,
    {
        self.ifds[self.current_directory_index].all_tags()
    }

    /// Resolves a tag in the current directory and decodes its value from
    /// the stream.  Absence, a truncated payload, and a malformed ASCII
    /// payload all surface as `None`, so that callers can tolerate malformed
    /// optional fields.
    pub fn get_directory_value_from_tag(&self, tag: Tag) -> (r: Option<TIFFValue>)
        requires
            self.wf(),
        ensures
            match spec_find_entry(self.spec_ifds()[self.spec_current()].spec_entries(), tag) {
                None => r is None,
                Some(entry) => match spec_entry_payload(
                    self.spec_data(),
                    self.spec_endian(),
                    entry.value_type,
                    entry.count,
                    entry.value_offset,
                ) {
                    Some(b) => match spec_decode_value(self.spec_endian(), entry.value_type, b) {
                        Some(v) => r matches Some(out) && out@ == v,
                        None => r is None,
                    },
                    None => r is None,
                },
            },
    {
        let entry = match self.ifds[self.current_directory_index].get_entry_from_tag(tag) {
            Some(entry) => entry,
            None => {
                return None;
            },
        };
        match TIFFValue::new_from_entry(&self.data, &entry, self.endian) {
            Ok(v) => Some(v),
            Err(_) => None,
        }
    }

    /// Extracts a raw byte range from the stream, used by higher layers to
    /// read strip and tile payloads.  Fails with `UnexpectedEof` when the
    /// range runs past the end of the stream.
    pub fn raw_bytes(&self, offset: u32, length: u32) -> (r: Result<Vec<u8>, TiffError>)
        ensures
            match r {
                Ok(b) => offset + length <= self.spec_data().len() && b@ == self.spec_data()
                    .subrange(offset as int, offset + length),
                Err(e) => e == TiffError::UnexpectedEof && offset + length
                    > self.spec_data().len(),
            },
    {
        let data_len: u64 = self.data.len() as u64;
        if (offset as u64) > data_len || (length as u64) > data_len - (offset as u64) {
            return Err(TiffError::UnexpectedEof);
        }
        let s = offset as usize;
        let m = length as usize;
        let mut out: Vec<u8> = Vec::new();
        let mut i: usize = 0;
        while i < m
            invariant
                s + m <= self.data@.len(),
                i <= m,
                out@ == self.data@.subrange(s as int, s as int + i as int),
            decreases m - i,
        {
            let total = self.data.len();
            proof {
                assert(self.data@.len() == total as int);
            }
            out.push(self.data[s + i]);
            proof {
                assert(self.data@.subrange(s as int, s as int + i as int).push(
                    self.data@[s as int + i as int],
                ) =~= self.data@.subrange(s as int, s as int + i as int + 1));
            }
            i = i + 1;
        }
        Ok(out)
    }
}


impl TIFFReader {
    /// The decoded value the current directory holds for a tag: `None` when
    /// the tag is absent or its payload cannot be read or decoded.
    pub open spec fn spec_value_for_tag(&self, tag: Tag) -> Option<ValueView> {
        match spec_find_entry(self.spec_ifds()[self.spec_current()].spec_entries(), tag) {
            None => None,
            Some(entry) => match spec_entry_payload(
                self.spec_data(),
                self.spec_endian(),
                entry.value_type,
                entry.count,
                entry.value_offset,
            ) {
                Some(b) => spec_decode_value(self.spec_endian(), entry.value_type, b),
                None => None,
            },
        }
    }

    /// Looks a typed field up in the current directory: resolves the field's
    /// tag, decodes the stored value, and applies the field's decoding rule.
    pub fn get_directory_field<T: Field>(&self) -> (r: Option<T>)
        requires
            self.wf(),
        ensures
            match self.spec_value_for_tag(T::spec_tag()) {
                Some(v) => match T::spec_decode(v) {
                    Some(w) => r matches Some(f) && f@ == w,
                    None => r is None,
                },
                None => r is None,
            },
    {
        let value = match self.get_directory_value_from_tag(T::tag()) {
            Some(v) => v,
            None => {
                return None;
            },
        };
        T::decode_from_value(&value)
    }

    /// The decoded directories, for facades layered over this reader.
    pub(crate) fn ifds_ref(&self) -> (r: &Vec<IFD>)
        ensures
            r@ == self.spec_ifds(),
    {
        &self.ifds
    }

    /// The bytes of the stream, for facades layered over this reader.
    pub(crate) fn data_ref(&self) -> (r: &Vec<u8>)
        ensures
            r@ == self.spec_data(),
    {
        &self.data
    }
}

} // verus!
