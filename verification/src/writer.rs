//! The writer facade: accumulates per-directory field tables and emits a
//! well-formed TIFF byte stream in one pass, inlining small payloads and
//! placing out-of-line payloads at even offsets.

use vstd::prelude::*;

use crate::endian::Endian;
use crate::endian::lemma_u16_roundtrip;
use crate::endian::lemma_u32_roundtrip;
use crate::endian::lemma_u32_bytes_roundtrip;
use crate::endian::push_u16;
use crate::endian::push_u32;
use crate::endian::spec_u16_bytes;
use crate::endian::spec_u16_from;
use crate::endian::spec_u32_bytes;
use crate::endian::spec_u32_from;
use crate::error::TiffError;
use crate::ifd::IFDEntry;
use crate::tag::Field;
use crate::tag::Tag;
use crate::tag::lemma_tag_from_value;
use crate::tag::spec_tag_from;
use crate::tag::spec_tag_value;
use crate::value::TIFFValue;
use crate::value::spec_count;
use crate::value::spec_element_width;
use crate::value::spec_encodable;
use crate::value::spec_payload;
use crate::value::spec_type_code;
use crate::value::lemma_payload_len;

verus! {

/// One field waiting to be written: its tag, wire type code, element count,
/// and serialised payload.
pub struct PendingEntry {
    pub tag: Tag,
    pub value_type: u16,
    pub count: u32,
    pub payload: Vec<u8>,
}

/// A pending entry is coherent when its payload length is exactly its
/// element count times the element width of its type, and its tag is the
/// canonical tag of its numeric identifier.
pub open spec fn spec_pending_wf(pe: PendingEntry) -> bool {
    &&& pe.payload@.len() == pe.count * spec_element_width(pe.value_type)
    &&& spec_tag_from(spec_tag_value(pe.tag)) == pe.tag
}

/// A directory table is sorted by strictly ascending tag number.
pub open spec fn spec_dir_sorted(dir: Seq<PendingEntry>) -> bool {
    forall|i: int, j: int|
        0 <= i < j < dir.len() ==> spec_tag_value((#[trigger] dir[i]).tag) < spec_tag_value(
            (#[trigger] dir[j]).tag,
        )
}

/// A directory table is well-formed when it is sorted and every entry is
/// coherent.
pub open spec fn spec_dir_wf(dir: Seq<PendingEntry>) -> bool {
    &&& spec_dir_sorted(dir)
    &&& forall|i: int| 0 <= i < dir.len() ==> spec_pending_wf(#[trigger] dir[i])
}

/// The first pending entry stored under a numeric tag identifier.
pub open spec fn spec_find_pending(dir: Seq<PendingEntry>, code: u16) -> Option<PendingEntry>
    decreases dir.len(),
{
    if dir.len() == 0 {
        None
    } else if spec_tag_value(dir[0].tag) == code {
        Some(dir[0])
    } else {
        spec_find_pending(dir.drop_first(), code)
    }
}

// ---------------------------------------------------------------------------
// Layout arithmetic.
// ---------------------------------------------------------------------------

/// The next even position at or after a position.
pub open spec fn spec_align2(p: int) -> int {
    if p % 2 == 0 {
        p
    } else {
        p + 1
    }
}

/// An entry's payload is written out of line when it exceeds the four-byte
/// value slot.
pub open spec fn spec_is_big(pe: PendingEntry) -> bool {
    pe.payload@.len() > 4
}

/// The absolute offsets assigned to out-of-line payloads, walking entries in
/// order from a cursor: each out-of-line payload starts at the cursor rounded
/// up to even; inline entries are assigned zero and consume nothing.
pub open spec fn spec_assign_offsets(entries: Seq<PendingEntry>, cur: int) -> Seq<int>
    decreases entries.len(),
{
    if entries.len() == 0 {
        Seq::empty()
    } else if spec_is_big(entries[0]) {
        seq![spec_align2(cur)] + spec_assign_offsets(
            entries.drop_first(),
            spec_align2(cur) + entries[0].payload@.len(),
        )
    } else {
        seq![0int] + spec_assign_offsets(entries.drop_first(), cur)
    }
}

/// The cursor after all out-of-line payloads of the entries are placed.
pub open spec fn spec_payload_end(entries: Seq<PendingEntry>, cur: int) -> int
    decreases entries.len(),
{
    if entries.len() == 0 {
        cur
    } else if spec_is_big(entries[0]) {
        spec_payload_end(entries.drop_first(), spec_align2(cur) + entries[0].payload@.len())
    } else {
        spec_payload_end(entries.drop_first(), cur)
    }
}

/// The first position after a whole directory placed with its record table
/// starting at `start`: the 16-bit count, the 12-byte records, the 32-bit
/// next-directory word, then the out-of-line payloads.
pub open spec fn spec_dir_end(dir: Seq<PendingEntry>, start: int) -> int {
    spec_payload_end(dir, start + 2 + 12 * dir.len() + 4)
}

/// The first position after all directories, starting from a position (each
/// directory starts at its position rounded up to even).
pub open spec fn spec_dirs_end(dirs: Seq<Seq<PendingEntry>>, pos: int) -> int
    decreases dirs.len(),
{
    if dirs.len() == 0 {
        pos
    } else {
        spec_dirs_end(dirs.drop_first(), spec_dir_end(dirs[0], spec_align2(pos)))
    }
}

/// A writer's layout fits when every directory's entry count fits the 16-bit
/// count word and the whole stream ends at or before 2^31.
pub open spec fn spec_write_fits(dirs: Seq<Seq<PendingEntry>>) -> bool {
    &&& forall|i: int| 0 <= i < dirs.len() ==> (#[trigger] dirs[i]).len() <= 0xFFFF
    &&& spec_dirs_end(dirs, 8) <= 0x80000000
}

/// The cursor never moves backwards while payloads are placed.
pub proof fn lemma_payload_end_lower(entries: Seq<PendingEntry>, cur: int)
    ensures
        cur <= spec_payload_end(entries, cur),
    decreases entries.len(),
{
    if entries.len() > 0 {
        if spec_is_big(entries[0]) {
            lemma_payload_end_lower(
                entries.drop_first(),
                spec_align2(cur) + entries[0].payload@.len(),
            );
        } else {
            lemma_payload_end_lower(entries.drop_first(), cur);
        }
    }
}

/// Placement from a later cursor ends no earlier.
pub proof fn lemma_payload_end_mono(entries: Seq<PendingEntry>, a: int, b: int)
    requires
        a <= b,
    ensures
        spec_payload_end(entries, a) <= spec_payload_end(entries, b),
    decreases entries.len(),
{
    if entries.len() > 0 {
        if spec_is_big(entries[0]) {
            lemma_payload_end_mono(
                entries.drop_first(),
                spec_align2(a) + entries[0].payload@.len(),
                spec_align2(b) + entries[0].payload@.len(),
            );
        } else {
            lemma_payload_end_mono(entries.drop_first(), a, b);
        }
    }
}

/// The stream end never moves backwards as directories are appended.
pub proof fn lemma_dirs_end_lower(dirs: Seq<Seq<PendingEntry>>, pos: int)
    ensures
        pos <= spec_dirs_end(dirs, pos),
    decreases dirs.len(),
{
    if dirs.len() > 0 {
        lemma_payload_end_lower(dirs[0], spec_align2(pos) + 2 + 12 * dirs[0].len() + 4);
        lemma_dirs_end_lower(dirs.drop_first(), spec_dir_end(dirs[0], spec_align2(pos)));
    }
}

/// Directory placement from a later position ends no earlier.
pub proof fn lemma_dirs_end_mono(dirs: Seq<Seq<PendingEntry>>, a: int, b: int)
    requires
        a <= b,
    ensures
        spec_dirs_end(dirs, a) <= spec_dirs_end(dirs, b),
    decreases dirs.len(),
{
    if dirs.len() > 0 {
        lemma_payload_end_mono(
            dirs[0],
            spec_align2(a) + 2 + 12 * dirs[0].len() + 4,
            spec_align2(b) + 2 + 12 * dirs[0].len() + 4,
        );
        lemma_dirs_end_mono(
            dirs.drop_first(),
            spec_dir_end(dirs[0], spec_align2(a)),
            spec_dir_end(dirs[0], spec_align2(b)),
        );
    }
}

/// Appending one directory to the layout walk.
pub proof fn lemma_dirs_end_push(dirs: Seq<Seq<PendingEntry>>, x: Seq<PendingEntry>, p: int)
    ensures
        spec_dirs_end(dirs.push(x), p) == spec_dir_end(x, spec_align2(spec_dirs_end(dirs, p))),
    decreases dirs.len(),
{
    if dirs.len() == 0 {
        assert(dirs.push(x).drop_first() =~= dirs);
        assert(dirs.push(x)[0] == x);
        assert(spec_dirs_end(dirs, p) == p);
        assert(spec_dirs_end(dirs.push(x), p) == spec_dirs_end(
            dirs,
            spec_dir_end(x, spec_align2(p)),
        ));
    } else {
        assert(dirs.push(x).drop_first() =~= dirs.drop_first().push(x));
        lemma_dirs_end_push(dirs.drop_first(), x, spec_dir_end(dirs[0], spec_align2(p)));
        assert(dirs.push(x)[0] == dirs[0]);
    }
}

/// Appending one entry to the placement walk.
pub proof fn lemma_payload_end_push(entries: Seq<PendingEntry>, x: PendingEntry, cur: int)
    ensures
        spec_payload_end(entries.push(x), cur) == (if spec_is_big(x) {
            spec_align2(spec_payload_end(entries, cur)) + x.payload@.len()
        } else {
            spec_payload_end(entries, cur)
        }),
        spec_assign_offsets(entries.push(x), cur) =~= spec_assign_offsets(entries, cur).push(
            (if spec_is_big(x) {
                spec_align2(spec_payload_end(entries, cur))
            } else {
                0int
            }),
        ),
    decreases entries.len(),
{
    if entries.len() == 0 {
        assert(entries.push(x).drop_first() =~= entries);
        assert(entries.push(x)[0] == x);
        assert(spec_payload_end(entries, cur) == cur);
        if spec_is_big(x) {
            assert(spec_payload_end(entries.push(x), cur) == spec_payload_end(
                entries,
                spec_align2(cur) + x.payload@.len(),
            ));
            assert(spec_assign_offsets(entries.push(x), cur) =~= seq![spec_align2(cur)]
                + spec_assign_offsets(entries, spec_align2(cur) + x.payload@.len()));
            assert(spec_assign_offsets(entries, spec_align2(cur) + x.payload@.len())
                =~= Seq::<int>::empty());
            assert(spec_assign_offsets(entries, cur).push(spec_align2(cur)) =~= seq![
                spec_align2(cur)
            ]);
        } else {
            assert(spec_payload_end(entries.push(x), cur) == spec_payload_end(entries, cur));
            assert(spec_assign_offsets(entries.push(x), cur) =~= seq![0int]
                + spec_assign_offsets(entries, cur));
            assert(spec_assign_offsets(entries, cur).push(0int) =~= seq![0int]);
        }
    } else {
        assert(entries.push(x).drop_first() =~= entries.drop_first().push(x));
        let cur2 = if spec_is_big(entries[0]) {
            spec_align2(cur) + entries[0].payload@.len()
        } else {
            cur
        };
        lemma_payload_end_push(entries.drop_first(), x, cur2);
        assert(entries.push(x)[0] == entries[0]);
        assert(spec_payload_end(entries, cur) == spec_payload_end(entries.drop_first(), cur2));
        assert(spec_payload_end(entries.push(x), cur) == spec_payload_end(
            entries.drop_first().push(x),
            cur2,
        ));
        let off_x = if spec_is_big(x) {
            spec_align2(spec_payload_end(entries, cur))
        } else {
            0int
        };
        if spec_is_big(entries[0]) {
            assert(spec_assign_offsets(entries.push(x), cur) =~= seq![spec_align2(cur)]
                + spec_assign_offsets(entries.drop_first().push(x), cur2));
            assert(spec_assign_offsets(entries, cur) =~= seq![spec_align2(cur)]
                + spec_assign_offsets(entries.drop_first(), cur2));
            assert(spec_assign_offsets(entries.push(x), cur) =~= (seq![spec_align2(cur)]
                + spec_assign_offsets(entries.drop_first(), cur2)).push(off_x));
        } else {
            assert(spec_assign_offsets(entries.push(x), cur) =~= seq![0int]
                + spec_assign_offsets(entries.drop_first().push(x), cur2));
            assert(spec_assign_offsets(entries, cur) =~= seq![0int] + spec_assign_offsets(
                entries.drop_first(),
                cur2,
            ));
            assert(spec_assign_offsets(entries.push(x), cur) =~= (seq![0int]
                + spec_assign_offsets(entries.drop_first(), cur2)).push(off_x));
        }
    }
}


/// A run of zero bytes.
pub open spec fn spec_zeros(n: int) -> Seq<u8> {
    Seq::new(n as nat, |i: int| 0u8)
}

/// The single zero pad byte emitted at an odd position, nothing at an even
/// one.
pub open spec fn spec_pad(pos: int) -> Seq<u8> {
    if pos % 2 == 1 {
        seq![0u8]
    } else {
        Seq::empty()
    }
}

/// The value-or-offset word of one entry: for an out-of-line payload its
/// assigned offset, for an inline payload the word whose encoding is the
/// payload left-justified with zero bytes padding the right.
pub open spec fn spec_entry_voff(e: Endian, pe: PendingEntry, assigned: int) -> u32 {
    if spec_is_big(pe) {
        assigned as u32
    } else {
        spec_u32_from(e, pe.payload@ + spec_zeros(4 - pe.payload@.len()))
    }
}

/// The value-or-offset words of a whole directory, with out-of-line
/// payloads assigned offsets from the cursor after the record table.
pub open spec fn spec_dir_voffs(e: Endian, dir: Seq<PendingEntry>, base: int) -> Seq<u32> {
    Seq::new(dir.len(), |k: int| spec_entry_voff(e, dir[k], spec_assign_offsets(dir, base)[k]))
}

/// The exact bytes of one directory placed with its record table starting at
/// `start`: count, records, next-directory word, out-of-line payloads.
pub open spec fn spec_dir_bytes(
    e: Endian,
    dir: Seq<PendingEntry>,
    start: int,
    next_word: u32,
) -> Seq<u8> {
    spec_u16_bytes(e, dir.len() as u16) + spec_records_bytes(
        e,
        dir,
        spec_dir_voffs(e, dir, start + 2 + 12 * dir.len() + 4),
    ) + spec_u32_bytes(e, next_word) + spec_payloads_bytes(dir, start + 2 + 12 * dir.len() + 4)
}

/// The exact bytes of a run of directories from a position: each directory
/// is aligned to an even start by a zero pad byte, and the last one's
/// next-directory word is zero.
pub open spec fn spec_dirs_bytes(e: Endian, dirs: Seq<Seq<PendingEntry>>, pos: int) -> Seq<u8>
    decreases dirs.len(),
{
    if dirs.len() == 0 {
        Seq::empty()
    } else {
        let start = spec_align2(pos);
        let dend = spec_dir_end(dirs[0], start);
        let nw: u32 = if dirs.len() == 1 {
            0
        } else {
            spec_align2(dend) as u32
        };
        spec_pad(pos) + spec_dir_bytes(e, dirs[0], start, nw) + spec_dirs_bytes(
            e,
            dirs.drop_first(),
            dend,
        )
    }
}

/// The exact 8-byte header: the byte-order mark, the magic word 42, and the
/// first-directory offset 8.
pub open spec fn spec_header_bytes(e: Endian) -> Seq<u8> {
    (match e {
        Endian::Little => seq![0x49u8, 0x49u8],
        Endian::Big => seq![0x4du8, 0x4du8],
    }) + spec_u16_bytes(e, 42) + spec_u32_bytes(e, 8)
}

/// The exact byte stream a writer's model lays out: the byte stream is a
/// function of the byte order and the directory tables alone.
pub open spec fn spec_write_bytes(e: Endian, dirs: Seq<Seq<PendingEntry>>) -> Seq<u8> {
    spec_header_bytes(e) + spec_dirs_bytes(e, dirs, 8)
}

/// Unfolding one directory of the exact byte stream.
pub proof fn lemma_dirs_bytes_step(e: Endian, dirs: Seq<Seq<PendingEntry>>, di: int, pos: int)
    requires
        0 <= di < dirs.len(),
    ensures
        ({
            let suffix = dirs.skip(di);
            let start = spec_align2(pos);
            let dend = spec_dir_end(dirs[di], start);
            let nw: u32 = if di == dirs.len() - 1 {
                0
            } else {
                spec_align2(dend) as u32
            };
            spec_dirs_bytes(e, suffix, pos) == spec_pad(pos) + spec_dir_bytes(
                e,
                dirs[di],
                start,
                nw,
            ) + spec_dirs_bytes(e, dirs.skip(di + 1), dend)
        }),
{
    let suffix = dirs.skip(di);
    assert(suffix[0] == dirs[di]);
    assert(suffix.len() == dirs.len() - di);
    assert(suffix.drop_first() =~= dirs.skip(di + 1));
}

// ---------------------------------------------------------------------------
// The writer.
// ---------------------------------------------------------------------------

/// The writer facade: accumulates per-directory field tables under a chosen
/// byte order and emits the whole byte stream on `write`.
pub struct TIFFWriter {
    ifds: Vec<Vec<PendingEntry>>,
    endian: Endian,
    current_index: usize,
}

impl TIFFWriter {
    /// The accumulated directories, in declaration order.
    pub closed spec fn spec_dirs(&self) -> Seq<Seq<PendingEntry>> {
        Seq::new(self.ifds@.len(), |i: int| self.ifds@[i]@)
    }

    /// The byte order every emitted word uses.
    pub closed spec fn spec_endian(&self) -> Endian {
        self.endian
    }

    /// The index of the directory that `set_field` calls target.
    pub closed spec fn spec_current(&self) -> int {
        self.current_index as int
    }

    /// A writer is well-formed when it holds at least one directory, the
    /// current index addresses one of them, and every directory table is
    /// sorted and coherent.
    pub open spec fn wf(&self) -> bool {
        &&& self.spec_dirs().len() >= 1
        &&& 0 <= self.spec_current() < self.spec_dirs().len()
        &&& forall|i: int| 0 <= i < self.spec_dirs().len() ==> spec_dir_wf(#[trigger] self.spec_dirs()[i])
    }

    /// Creates a new writer with a provided `Endian`, with one empty
    /// directory to write in.
    pub fn new(endian: Endian) -> (r: TIFFWriter)
        ensures
            r.wf(),
            r.spec_endian() == endian,
            r.spec_current() == 0,
            r.spec_dirs().len() == 1,
            r.spec_dirs()[0].len() == 0,
    {
        let mut ifds: Vec<Vec<PendingEntry>> = Vec::new();
        ifds.push(Vec::new());
        TIFFWriter { ifds, endian, current_index: 0 }
    }

    /// Creates a new empty directory at the provided index, shifting later
    /// directories.
    pub fn insert_directory_at_index(&mut self, ifd: usize)
        requires
            old(self).wf(),
            ifd <= old(self).spec_dirs().len(),
        ensures
            final(self).wf(),
            final(self).spec_endian() == old(self).spec_endian(),
            final(self).spec_current() == old(self).spec_current(),
            final(self).spec_dirs() =~= old(self).spec_dirs().insert(
                ifd as int,
                Seq::<PendingEntry>::empty(),
            ),
    {
        self.ifds.insert(ifd, Vec::new());
        proof {
            assert(self.spec_dirs() =~= old(self).spec_dirs().insert(
                ifd as int,
                Seq::<PendingEntry>::empty(),
            ));
        }
    }

    /// Selects which directory subsequent `set_field` calls target.
    pub fn set_current_directory_index(&mut self, index: usize)
        requires
            old(self).wf(),
            index < old(self).spec_dirs().len(),
        ensures
            final(self).wf(),
            final(self).spec_endian() == old(self).spec_endian(),
            final(self).spec_dirs() == old(self).spec_dirs(),
            final(self).spec_current() == index as int,
    {
        self.current_index = index;
    }

    /// Encodes a value under this writer's byte order and stores it in the
    /// selected directory under the given tag (resolved to its canonical
    /// form), replacing any value already stored under the same tag number.
    pub fn set_directory_field_for_tag(&mut self, tag: Tag, value: TIFFValue) -> (r: Result<
        (),
        TiffError,
    >)
        requires
            old(self).wf(),
        ensures
            final(self).wf(),
            final(self).spec_endian() == old(self).spec_endian(),
            final(self).spec_current() == old(self).spec_current(),
            match r {
                Ok(()) => {
                    &&& spec_encodable(value@)
                    &&& spec_count(value@) <= u32::MAX
                    &&& final(self).spec_dirs().len() == old(self).spec_dirs().len()
                    &&& forall|d: int|
                        0 <= d < old(self).spec_dirs().len() && d != old(self).spec_current()
                            ==> #[trigger] final(self).spec_dirs()[d] == old(self).spec_dirs()[d]
                    &&& match spec_find_pending(
                        final(self).spec_dirs()[old(self).spec_current()],
                        spec_tag_value(tag),
                    ) {
                        Some(pe) => {
                            &&& pe.tag == spec_tag_from(spec_tag_value(tag))
                            &&& pe.value_type == spec_type_code(value@)
                            &&& pe.count == spec_count(value@)
                            &&& pe.payload@ == spec_payload(old(self).spec_endian(), value@)
                        },
                        None => false,
                    }
                    &&& forall|c: u16|
                        c != spec_tag_value(tag) ==> #[trigger] spec_find_pending(
                            final(self).spec_dirs()[old(self).spec_current()],
                            c,
                        ) == spec_find_pending(old(self).spec_dirs()[old(self).spec_current()], c)
                },
                Err(e) => {
                    &&& *final(self) == *old(self)
                    &&& (e == TiffError::EncodingError || e == TiffError::OutOfBounds)
                    &&& (e == TiffError::EncodingError ==> !spec_encodable(value@))
                    &&& (e == TiffError::OutOfBounds ==> spec_count(value@) > u32::MAX)
                },
            },
    {
        let (count, payload) = match value.encode_payload(self.endian) {
            Ok(p) => p,
            Err(e) => {
                return Err(e);
            },
        };
        let value_type = value.value_type_id();
        let entry = PendingEntry { tag: Tag::from_u16(tag.tag_value()), value_type, count, payload };
        proof {
            lemma_tag_from_value(spec_tag_value(tag));
            lemma_payload_len(self.endian, value@);
            assert(spec_pending_wf(entry));
        }
        let code = entry.tag.tag_value();
        proof {
            assert(code == spec_tag_value(tag));
        }
        let cur = self.current_index;
        let mut dir = self.ifds.remove(cur);
        let ghost dir0 = dir@;
        let n = dir.len();
        let mut i: usize = 0;
        while i < n && dir[i].tag.tag_value() < code
            invariant
                n == dir@.len(),
                dir@ == dir0,
                i <= n,
                spec_dir_wf(dir0),
                code == spec_tag_value(entry.tag),
                forall|k: int| 0 <= k < i ==> spec_tag_value((#[trigger] dir0[k]).tag) < code,
            decreases n - i,
        {
            i = i + 1;
        }
        if i < n && dir[i].tag.tag_value() == code {
            dir[i] = entry;
            proof {
                lemma_pending_update(dir0, i as int, entry);
                assert(dir@ =~= dir0.update(i as int, entry));
            }
        } else {
            proof {
                assert forall|k: int| i <= k < dir0.len() implies spec_tag_value(
                    (#[trigger] dir0[k]).tag,
                ) > code by {
                    if k == i as int {
                        assert(spec_tag_value(dir0[k].tag) >= code);
                        assert(spec_tag_value(dir0[k].tag) != code);
                    } else {
                        assert(spec_tag_value(dir0[i as int].tag) < spec_tag_value(dir0[k].tag));
                        assert(spec_tag_value(dir0[i as int].tag) >= code);
                        assert(spec_tag_value(dir0[i as int].tag) != code);
                    }
                }
            }
            dir.insert(i, entry);
            proof {
                lemma_pending_insert(dir0, i as int, entry);
                assert(dir@ =~= dir0.insert(i as int, entry));
            }
        }
        self.ifds.insert(cur, dir);
        proof {
            assert(self.spec_dirs().len() == old(self).spec_dirs().len());
            assert(self.spec_dirs()[cur as int] == dir@);
            assert forall|d: int|
                0 <= d < old(self).spec_dirs().len() && d != cur as int implies #[trigger] self
                .spec_dirs()[d] == old(self).spec_dirs()[d] by {
                assert(self.ifds@[d] == old(self).ifds@[d]);
            }
        }
        Ok(())
    }
}

/// Replacing the entry at the position where a tag number already sits keeps
/// the table sorted, resolves the number to the new entry, and keeps every
/// other lookup unchanged.
proof fn lemma_pending_update(dir: Seq<PendingEntry>, i: int, entry: PendingEntry)
    requires
        spec_dir_wf(dir),
        0 <= i < dir.len(),
        spec_tag_value(dir[i].tag) == spec_tag_value(entry.tag),
        spec_pending_wf(entry),
        forall|k: int| 0 <= k < i ==> spec_tag_value((#[trigger] dir[k]).tag) < spec_tag_value(
            entry.tag,
        ),
    ensures
        spec_dir_wf(dir.update(i, entry)),
        spec_find_pending(dir.update(i, entry), spec_tag_value(entry.tag)) == Some(entry),
        forall|c: u16|
            c != spec_tag_value(entry.tag) ==> #[trigger] spec_find_pending(
                dir.update(i, entry),
                c,
            ) == spec_find_pending(dir, c),
    decreases dir.len(),
{
    let code = spec_tag_value(entry.tag);
    let updated = dir.update(i, entry);
    assert forall|p: int, q: int| 0 <= p < q < updated.len() implies spec_tag_value(
        (#[trigger] updated[p]).tag,
    ) < spec_tag_value((#[trigger] updated[q]).tag) by {
        assert(spec_tag_value(dir[p].tag) < spec_tag_value(dir[q].tag));
    }
    assert forall|k: int| 0 <= k < updated.len() implies spec_pending_wf(
        #[trigger] updated[k],
    ) by {
        if k != i {
            assert(spec_pending_wf(dir[k]));
        }
    }
    if i == 0 {
        assert(updated[0] == entry);
        assert forall|c: u16|
            c != code implies #[trigger] spec_find_pending(updated, c) == spec_find_pending(
            dir,
            c,
        ) by {
            assert(updated.drop_first() =~= dir.drop_first());
        }
    } else {
        assert(updated.drop_first() =~= dir.drop_first().update(i - 1, entry));
        assert(spec_dir_wf(dir.drop_first()));
        lemma_pending_update(dir.drop_first(), i - 1, entry);
        assert(updated[0] == dir[0]);
        assert(spec_tag_value(updated[0].tag) != code);
        assert forall|c: u16|
            c != code implies #[trigger] spec_find_pending(updated, c) == spec_find_pending(
            dir,
            c,
        ) by {
            if spec_tag_value(updated[0].tag) == c {
            } else {
                assert(spec_find_pending(updated.drop_first(), c) == spec_find_pending(
                    dir.drop_first(),
                    c,
                ));
            }
        }
    }
}

/// Inserting an entry at the position that keeps the table sorted resolves
/// its tag number to it and keeps every other lookup unchanged.
proof fn lemma_pending_insert(dir: Seq<PendingEntry>, i: int, entry: PendingEntry)
    requires
        spec_dir_wf(dir),
        0 <= i <= dir.len(),
        spec_pending_wf(entry),
        forall|k: int| 0 <= k < i ==> spec_tag_value((#[trigger] dir[k]).tag) < spec_tag_value(
            entry.tag,
        ),
        forall|k: int| i <= k < dir.len() ==> spec_tag_value((#[trigger] dir[k]).tag)
            > spec_tag_value(entry.tag),
    ensures
        spec_dir_wf(dir.insert(i, entry)),
        spec_find_pending(dir.insert(i, entry), spec_tag_value(entry.tag)) == Some(entry),
        forall|c: u16|
            c != spec_tag_value(entry.tag) ==> #[trigger] spec_find_pending(
                dir.insert(i, entry),
                c,
            ) == spec_find_pending(dir, c),
    decreases dir.len(),
{
    let code = spec_tag_value(entry.tag);
    let inserted = dir.insert(i, entry);
    assert forall|p: int, q: int| 0 <= p < q < inserted.len() implies spec_tag_value(
        (#[trigger] inserted[p]).tag,
    ) < spec_tag_value((#[trigger] inserted[q]).tag) by {
        if p < i && q < i {
            assert(inserted[p] == dir[p] && inserted[q] == dir[q]);
        } else if p < i && q == i {
            assert(inserted[p] == dir[p] && inserted[q] == entry);
        } else if p < i && q > i {
            assert(inserted[p] == dir[p] && inserted[q] == dir[q - 1]);
            assert(spec_tag_value(dir[q - 1].tag) > code);
            assert(spec_tag_value(dir[p].tag) < code);
        } else if p == i {
            assert(inserted[p] == entry && inserted[q] == dir[q - 1]);
        } else {
            assert(inserted[p] == dir[p - 1] && inserted[q] == dir[q - 1]);
        }
    }
    assert forall|k: int| 0 <= k < inserted.len() implies spec_pending_wf(
        #[trigger] inserted[k],
    ) by {
        if k < i {
            assert(inserted[k] == dir[k]);
            assert(spec_pending_wf(dir[k]));
        } else if k == i {
        } else {
            assert(inserted[k] == dir[k - 1]);
            assert(spec_pending_wf(dir[k - 1]));
        }
    }
    if i == 0 {
        assert(inserted[0] == entry);
        assert forall|c: u16|
            c != code implies #[trigger] spec_find_pending(inserted, c) == spec_find_pending(
            dir,
            c,
        ) by {
            assert(inserted.drop_first() =~= dir);
        }
    } else {
        assert(inserted.drop_first() =~= dir.drop_first().insert(i - 1, entry));
        assert(spec_dir_wf(dir.drop_first()));
        lemma_pending_insert(dir.drop_first(), i - 1, entry);
        assert(inserted[0] == dir[0]);
        assert(spec_tag_value(inserted[0].tag) != code);
        assert forall|c: u16|
            c != code implies #[trigger] spec_find_pending(inserted, c) == spec_find_pending(
            dir,
            c,
        ) by {
            if spec_tag_value(inserted[0].tag) == c {
            } else {
                assert(spec_find_pending(inserted.drop_first(), c) == spec_find_pending(
                    dir.drop_first(),
                    c,
                ));
            }
        }
    }
}


/// One offset is assigned per entry.
pub proof fn lemma_assign_len(entries: Seq<PendingEntry>, cur: int)
    ensures
        spec_assign_offsets(entries, cur).len() == entries.len(),
    decreases entries.len(),
{
    if entries.len() > 0 {
        if spec_is_big(entries[0]) {
            lemma_assign_len(
                entries.drop_first(),
                spec_align2(cur) + entries[0].payload@.len(),
            );
        } else {
            lemma_assign_len(entries.drop_first(), cur);
        }
    }
}

// ---------------------------------------------------------------------------
// Byte-level layout of a directory.
// ---------------------------------------------------------------------------

/// The 12-byte wire record of one entry, with the given value-or-offset word.
pub open spec fn spec_entry_record(e: Endian, pe: PendingEntry, voff: u32) -> Seq<u8> {
    spec_u16_bytes(e, spec_tag_value(pe.tag)) + spec_u16_bytes(e, pe.value_type) + spec_u32_bytes(
        e,
        pe.count,
    ) + spec_u32_bytes(e, voff)
}

/// The concatenated 12-byte records of a directory.
pub open spec fn spec_records_bytes(e: Endian, entries: Seq<PendingEntry>, voffs: Seq<u32>) -> Seq<
    u8,
>
    decreases entries.len(),
{
    if entries.len() == 0 {
        Seq::empty()
    } else {
        spec_entry_record(e, entries[0], voffs[0]) + spec_records_bytes(
            e,
            entries.drop_first(),
            voffs.drop_first(),
        )
    }
}

pub proof fn lemma_records_len(e: Endian, entries: Seq<PendingEntry>, voffs: Seq<u32>)
    ensures
        spec_records_bytes(e, entries, voffs).len() == 12 * entries.len(),
    decreases entries.len(),
{
    if entries.len() > 0 {
        lemma_records_len(e, entries.drop_first(), voffs.drop_first());
    }
}

/// Appending one entry appends its record.
pub proof fn lemma_records_push(
    e: Endian,
    entries: Seq<PendingEntry>,
    voffs: Seq<u32>,
    x: PendingEntry,
    v: u32,
)
    requires
        voffs.len() == entries.len(),
    ensures
        spec_records_bytes(e, entries.push(x), voffs.push(v)) =~= spec_records_bytes(
            e,
            entries,
            voffs,
        ) + spec_entry_record(e, x, v),
    decreases entries.len(),
{
    if entries.len() == 0 {
        assert(entries.push(x).drop_first() =~= entries);
        assert(voffs.push(v).drop_first() =~= voffs);
        assert(entries.push(x)[0] == x);
        assert(voffs.push(v)[0] == v);
        assert(spec_records_bytes(e, entries.push(x), voffs.push(v)) =~= spec_entry_record(
            e,
            x,
            v,
        ) + spec_records_bytes(e, entries, voffs));
    } else {
        assert(entries.push(x).drop_first() =~= entries.drop_first().push(x));
        assert(voffs.push(v).drop_first() =~= voffs.drop_first().push(v));
        lemma_records_push(e, entries.drop_first(), voffs.drop_first(), x, v);
        assert(entries.push(x)[0] == entries[0]);
        assert(voffs.push(v)[0] == voffs[0]);
    }
}

/// Each record occupies its own 12-byte group of the concatenation.
pub proof fn lemma_records_index(
    e: Endian,
    entries: Seq<PendingEntry>,
    voffs: Seq<u32>,
    k: int,
)
    requires
        voffs.len() == entries.len(),
        0 <= k < entries.len(),
    ensures
        spec_records_bytes(e, entries, voffs).subrange(12 * k, 12 * k + 12) =~= spec_entry_record(
            e,
            entries[k],
            voffs[k],
        ),
    decreases k,
{
    lemma_records_len(e, entries, voffs);
    let all = spec_records_bytes(e, entries, voffs);
    let head = spec_entry_record(e, entries[0], voffs[0]);
    let rest = spec_records_bytes(e, entries.drop_first(), voffs.drop_first());
    lemma_records_len(e, entries.drop_first(), voffs.drop_first());
    assert(head.len() == 12);
    if k == 0 {
        assert(all.subrange(0, 12) =~= head);
    } else {
        lemma_records_index(e, entries.drop_first(), voffs.drop_first(), k - 1);
        assert(all.subrange(12 * k, 12 * k + 12) =~= rest.subrange(12 * (k - 1), 12 * (k - 1)
            + 12));
        assert(entries.drop_first()[k - 1] == entries[k]);
        assert(voffs.drop_first()[k - 1] == voffs[k]);
    }
}

/// The out-of-line payload blob: for each out-of-line entry, a single pad
/// byte when the cursor is odd, then the payload bytes.
pub open spec fn spec_payloads_bytes(entries: Seq<PendingEntry>, cur: int) -> Seq<u8>
    decreases entries.len(),
{
    if entries.len() == 0 {
        Seq::empty()
    } else if spec_is_big(entries[0]) {
        (if cur % 2 == 1 {
            seq![0u8]
        } else {
            Seq::<u8>::empty()
        }) + entries[0].payload@ + spec_payloads_bytes(
            entries.drop_first(),
            spec_align2(cur) + entries[0].payload@.len(),
        )
    } else {
        spec_payloads_bytes(entries.drop_first(), cur)
    }
}

pub proof fn lemma_payloads_len(entries: Seq<PendingEntry>, cur: int)
    ensures
        spec_payloads_bytes(entries, cur).len() == spec_payload_end(entries, cur) - cur,
    decreases entries.len(),
{
    if entries.len() > 0 {
        if spec_is_big(entries[0]) {
            lemma_payloads_len(
                entries.drop_first(),
                spec_align2(cur) + entries[0].payload@.len(),
            );
            lemma_payload_end_lower(
                entries.drop_first(),
                spec_align2(cur) + entries[0].payload@.len(),
            );
        } else {
            lemma_payloads_len(entries.drop_first(), cur);
        }
    }
}

/// Appending one entry appends its (possibly padded) payload.
pub proof fn lemma_payloads_push(entries: Seq<PendingEntry>, x: PendingEntry, cur: int)
    ensures
        spec_payloads_bytes(entries.push(x), cur) =~= spec_payloads_bytes(entries, cur) + (
        if spec_is_big(x) {
            (if spec_payload_end(entries, cur) % 2 == 1 {
                seq![0u8]
            } else {
                Seq::<u8>::empty()
            }) + x.payload@
        } else {
            Seq::<u8>::empty()
        }),
    decreases entries.len(),
{
    if entries.len() == 0 {
        assert(entries.push(x).drop_first() =~= entries);
        assert(entries.push(x)[0] == x);
        assert(spec_payload_end(entries, cur) == cur);
        if spec_is_big(x) {
            assert(spec_payloads_bytes(entries.push(x), cur) =~= (if cur % 2 == 1 {
                seq![0u8]
            } else {
                Seq::<u8>::empty()
            }) + x.payload@ + spec_payloads_bytes(
                entries,
                spec_align2(cur) + x.payload@.len(),
            ));
        }
    } else {
        assert(entries.push(x).drop_first() =~= entries.drop_first().push(x));
        let cur2 = if spec_is_big(entries[0]) {
            spec_align2(cur) + entries[0].payload@.len()
        } else {
            cur
        };
        lemma_payloads_push(entries.drop_first(), x, cur2);
        assert(entries.push(x)[0] == entries[0]);
        assert(spec_payload_end(entries, cur) == spec_payload_end(entries.drop_first(), cur2));
    }
}

/// When the bytes from the cursor to the placement end hold the payload
/// blob, every out-of-line payload lies at its assigned offset.
pub proof fn lemma_payloads_extract(data: Seq<u8>, entries: Seq<PendingEntry>, cur: int)
    requires
        0 <= cur,
        spec_payload_end(entries, cur) <= data.len(),
        data.subrange(cur, spec_payload_end(entries, cur)) =~= spec_payloads_bytes(entries, cur),
    ensures
        forall|k: int|
            0 <= k < entries.len() && spec_is_big(#[trigger] entries[k])
                ==> data.subrange(
                spec_assign_offsets(entries, cur)[k],
                spec_assign_offsets(entries, cur)[k] + entries[k].payload@.len(),
            ) =~= entries[k].payload@,
    decreases entries.len(),
{
    if entries.len() > 0 {
        let the_end = spec_payload_end(entries, cur);
        lemma_payload_end_lower(entries, cur);
        lemma_assign_len(entries, cur);
        if spec_is_big(entries[0]) {
            let a2 = spec_align2(cur);
            let len0 = entries[0].payload@.len();
            let cur2 = a2 + len0;
            lemma_assign_len(entries.drop_first(), cur2);
            lemma_payload_end_lower(entries.drop_first(), cur2);
            lemma_payloads_len(entries.drop_first(), cur2);
            let blob = spec_payloads_bytes(entries, cur);
            assert(blob =~= (if cur % 2 == 1 {
                seq![0u8]
            } else {
                Seq::<u8>::empty()
            }) + entries[0].payload@ + spec_payloads_bytes(entries.drop_first(), cur2));
            assert(spec_payload_end(entries, cur) == spec_payload_end(
                entries.drop_first(),
                cur2,
            ));
            assert forall|q: int| 0 <= q < len0 implies data[a2 + q] == entries[0].payload@[q] by {
                assert(data.subrange(cur, the_end)[a2 - cur + q] == data[a2 + q]);
                assert(blob[a2 - cur + q] == entries[0].payload@[q]);
            }
            assert(data.subrange(a2, a2 + len0) =~= entries[0].payload@);
            assert forall|q: int| 0 <= q < the_end - cur2 implies data[cur2 + q]
                == spec_payloads_bytes(entries.drop_first(), cur2)[q] by {
                assert(data.subrange(cur, the_end)[cur2 - cur + q] == data[cur2 + q]);
                assert(blob[cur2 - cur + q] == spec_payloads_bytes(entries.drop_first(), cur2)[q]);
            }
            assert(data.subrange(cur2, spec_payload_end(entries.drop_first(), cur2))
                =~= spec_payloads_bytes(entries.drop_first(), cur2));
            lemma_payloads_extract(data, entries.drop_first(), cur2);
            assert forall|k: int|
                0 <= k < entries.len() && spec_is_big(#[trigger] entries[k]) implies data.subrange(
                spec_assign_offsets(entries, cur)[k],
                spec_assign_offsets(entries, cur)[k] + entries[k].payload@.len(),
            ) =~= entries[k].payload@ by {
                if k == 0 {
                    assert(spec_assign_offsets(entries, cur)[0] == a2);
                } else {
                    assert(spec_assign_offsets(entries, cur)[k] == spec_assign_offsets(
                        entries.drop_first(),
                        cur2,
                    )[k - 1]);
                    assert(entries[k] == entries.drop_first()[k - 1]);
                }
            }
        } else {
            assert(spec_payloads_bytes(entries, cur) =~= spec_payloads_bytes(
                entries.drop_first(),
                cur,
            ));
            assert(spec_payload_end(entries, cur) == spec_payload_end(entries.drop_first(), cur));
            lemma_assign_len(entries.drop_first(), cur);
            lemma_payloads_extract(data, entries.drop_first(), cur);
            assert forall|k: int|
                0 <= k < entries.len() && spec_is_big(#[trigger] entries[k]) implies data.subrange(
                spec_assign_offsets(entries, cur)[k],
                spec_assign_offsets(entries, cur)[k] + entries[k].payload@.len(),
            ) =~= entries[k].payload@ by {
                assert(k > 0);
                assert(spec_assign_offsets(entries, cur)[k] == spec_assign_offsets(
                    entries.drop_first(),
                    cur,
                )[k - 1]);
                assert(entries[k] == entries.drop_first()[k - 1]);
            }
        }
    }
}

/// Emits the 12-byte records of one directory into the buffer: tag, type,
/// count, and the value-or-offset slot.  A payload of at most four bytes is
/// written into the slot, left-justified and zero-padded; a larger payload is
/// assigned the next even out-of-line offset.  `position` is the buffer
/// position at which the records begin.  Fails with an out-of-bounds error
/// when the payload area would extend past 2^31.
#[verifier::rlimit(100)]
pub fn write_ifd_tag(out_buff: &mut Vec<u8>, position: u64, endian: Endian, ifd: &Vec<PendingEntry>)
    -> (r: Result<(u64, Ghost<Seq<u32>>), TiffError>)
    requires
        8 <= position <= 0x80000004,
        ifd@.len() <= 0xFFFF,
        spec_dir_wf(ifd@),
        old(out_buff)@.len() == position,
    ensures
        match r {
            Ok(rr) => {
                &&& rr.1@.len() == ifd@.len()
                &&& final(out_buff)@ == old(out_buff)@ + spec_records_bytes(endian, ifd@, rr.1@)
                &&& rr.0 as int == spec_payload_end(
                    ifd@,
                    position + 12 * ifd@.len() + 4,
                )
                &&& rr.0 <= 0x80000000
                &&& forall|k: int|
                    0 <= k < ifd@.len() && spec_is_big(#[trigger] ifd@[k]) ==> {
                        &&& rr.1@[k] as int == spec_assign_offsets(
                            ifd@,
                            position + 12 * ifd@.len() + 4,
                        )[k]
                        &&& rr.1@[k] % 2 == 0
                        &&& rr.1@[k] as int >= position
                    }
                &&& forall|k: int|
                    0 <= k < ifd@.len() && !spec_is_big(#[trigger] ifd@[k]) ==> spec_u32_bytes(
                        endian,
                        rr.1@[k],
                    ).take(ifd@[k].payload@.len() as int) =~= ifd@[k].payload@
                &&& forall|k: int|
                    0 <= k < ifd@.len() && !spec_is_big(#[trigger] ifd@[k]) ==> spec_u32_bytes(
                        endian,
                        rr.1@[k],
                    ) == ifd@[k].payload@ + spec_zeros(4 - ifd@[k].payload@.len())
            },
            Err(e) => {
                &&& e == TiffError::OutOfBounds
                &&& spec_payload_end(ifd@, position + 12 * ifd@.len() + 4) > 0x80000000
            },
        },
{
    let n = ifd.len();
    let base: u64 = position + 12 * (n as u64) + 4;
    let ghost gbase = base as int;
    if base > 0x80000000 {
        proof {
            lemma_payload_end_lower(ifd@, gbase);
        }
        return Err(TiffError::OutOfBounds);
    }
    let mut cur: u64 = base;
    let ghost mut voffs: Seq<u32> = Seq::empty();
    let mut j: usize = 0;
    proof {
        assert(ifd@.take(0) =~= Seq::<PendingEntry>::empty());
        assert(ifd@.skip(0) =~= ifd@);
        assert(spec_records_bytes(endian, ifd@.take(0), voffs) =~= Seq::<u8>::empty());
        assert(out_buff@ =~= old(out_buff)@ + spec_records_bytes(endian, ifd@.take(0), voffs));
    }
    while j < n
        invariant
            n == ifd@.len(),
            n <= 0xFFFF,
            8 <= position <= 0x80000004,
            gbase == position + 12 * ifd@.len() + 4,
            base == gbase,
            spec_dir_wf(ifd@),
            j <= n,
            voffs.len() == j as int,
            out_buff@ == old(out_buff)@ + spec_records_bytes(endian, ifd@.take(j as int), voffs),
            cur as int == spec_payload_end(ifd@.take(j as int), gbase),
            cur <= 0x80000000,
            spec_payload_end(ifd@, gbase) == spec_payload_end(ifd@.skip(j as int), cur as int),
            forall|k: int|
                0 <= k < j && spec_is_big(#[trigger] ifd@[k]) ==> {
                    &&& voffs[k] as int == spec_assign_offsets(ifd@.take(j as int), gbase)[k]
                    &&& voffs[k] % 2 == 0
                    &&& voffs[k] as int >= position
                },
            forall|k: int|
                0 <= k < j && !spec_is_big(#[trigger] ifd@[k]) ==> spec_u32_bytes(
                    endian,
                    voffs[k],
                ) == ifd@[k].payload@ + spec_zeros(4 - ifd@[k].payload@.len()),
        decreases n - j,
    {
        let ghost pre_take = ifd@.take(j as int);
        let ghost pre_voffs = voffs;
        let ghost pre_cur = cur as int;
        proof {
            assert(ifd@.skip(j as int)[0] == ifd@[j as int]);
            assert(ifd@.skip(j as int).drop_first() =~= ifd@.skip(j as int + 1));
            assert(pre_take.push(ifd@[j as int]) =~= ifd@.take(j as int + 1));
            lemma_payload_end_push(pre_take, ifd@[j as int], gbase);
            lemma_assign_len(pre_take, gbase);
            lemma_assign_len(ifd@.take(j as int + 1), gbase);
        }
        let pe_tag = ifd[j].tag;
        let pe_vt = ifd[j].value_type;
        let pe_count = ifd[j].count;
        let plen = ifd[j].payload.len();
        emit_record_prefix(out_buff, endian, pe_tag.tag_value(), pe_vt, pe_count);
        let voff: u32;
        if plen <= 4 {
            voff = emit_inline_slot(out_buff, endian, &ifd[j].payload);
        } else {
            if cur % 2 == 1 {
                cur = cur + 1;
            }
            proof {
                assert(cur as int == spec_align2(pre_cur));
            }
            if (plen as u64) > 0x80000000 || cur + (plen as u64) > 0x80000000 {
                proof {
                    lemma_payload_end_lower(
                        ifd@.skip(j as int + 1),
                        spec_align2(pre_cur) + ifd@[j as int].payload@.len(),
                    );
                    assert(spec_payload_end(ifd@.skip(j as int), pre_cur) == spec_payload_end(
                        ifd@.skip(j as int + 1),
                        spec_align2(pre_cur) + ifd@[j as int].payload@.len(),
                    ));
                }
                return Err(TiffError::OutOfBounds);
            }
            voff = cur as u32;
            push_u32(out_buff, endian, voff);
            cur = cur + (plen as u64);
        }
        proof {
            assert(out_buff@ =~= old(out_buff)@ + spec_records_bytes(endian, pre_take, pre_voffs)
                + spec_entry_record(endian, ifd@[j as int], voff));
        }
        proof {
            lemma_records_push(endian, pre_take, pre_voffs, ifd@[j as int], voff);
            if spec_is_big(ifd@[j as int]) {
                assert(voff as int == spec_align2(spec_payload_end(pre_take, gbase)));
                assert(voff % 2 == 0);
                assert(voff as int >= position) by {
                    lemma_payload_end_lower(pre_take, gbase);
                }
            }
            lemma_voffs_step(endian, ifd@, j as int, gbase, position, pre_voffs, voff);
            voffs = voffs.push(voff);
            assert(out_buff@ =~= old(out_buff)@ + spec_records_bytes(
                endian,
                ifd@.take(j as int + 1),
                voffs,
            ));
        }
        j = j + 1;
    }
    proof {
        assert(ifd@.take(n as int) =~= ifd@);
        assert(ifd@.skip(n as int) =~= Seq::<PendingEntry>::empty());
        assert forall|k: int|
            0 <= k < ifd@.len() && !spec_is_big(#[trigger] ifd@[k]) implies spec_u32_bytes(
            endian,
            voffs[k],
        ).take(ifd@[k].payload@.len() as int) =~= ifd@[k].payload@ by {
            assert(spec_u32_bytes(endian, voffs[k]) == ifd@[k].payload@ + spec_zeros(
                4 - ifd@[k].payload@.len(),
            ));
        }
    }
    Ok((cur, Ghost(voffs)))
}


// ---------------------------------------------------------------------------
// Stability of parse facts under appends, and chain assembly.
// ---------------------------------------------------------------------------

/// One byte sequence is a prefix of another.
pub open spec fn spec_is_prefix(a: Seq<u8>, b: Seq<u8>) -> bool {
    a.len() <= b.len() && forall|k: int| 0 <= k < a.len() ==> a[k] == b[k]
}

/// A subrange within a prefix reads the same bytes in the longer sequence.
pub proof fn lemma_prefix_subrange(a: Seq<u8>, b: Seq<u8>, i: int, j: int)
    requires
        spec_is_prefix(a, b),
        0 <= i <= j <= a.len(),
    ensures
        b.subrange(i, j) =~= a.subrange(i, j),
{
}

/// A parsed header stays parsed when bytes are appended.
pub proof fn lemma_header_prefix(a: Seq<u8>, b: Seq<u8>)
    requires
        spec_is_prefix(a, b),
        crate::reader::spec_parse_header(a) is Some,
    ensures
        crate::reader::spec_parse_header(b) == crate::reader::spec_parse_header(a),
{
    lemma_prefix_subrange(a, b, 2, 4);
    lemma_prefix_subrange(a, b, 4, 8);
}

/// A parsed directory stays parsed when bytes are appended.
pub proof fn lemma_parse_ifd_prefix(e: Endian, a: Seq<u8>, b: Seq<u8>, off: int)
    requires
        spec_is_prefix(a, b),
        crate::ifd::spec_parse_ifd(e, a, off) is Some,
    ensures
        crate::ifd::spec_parse_ifd(e, b, off) == crate::ifd::spec_parse_ifd(e, a, off),
{
    lemma_prefix_subrange(a, b, off, off + 2);
    let n = spec_u16_from(e, a.subrange(off, off + 2)) as int;
    lemma_prefix_subrange(a, b, off + 2 + 12 * n, off + 2 + 12 * n + 4);
    let pa = crate::ifd::spec_parse_ifd(e, a, off).unwrap();
    let ea = Seq::new(n as nat, |i: int| crate::ifd::spec_parse_entry(e, a, off + 2 + 12 * i));
    let eb = Seq::new(n as nat, |i: int| crate::ifd::spec_parse_entry(e, b, off + 2 + 12 * i));
    assert forall|i: int| 0 <= i < n implies eb[i] == ea[i] by {
        let p = off + 2 + 12 * i;
        lemma_prefix_subrange(a, b, p, p + 2);
        lemma_prefix_subrange(a, b, p + 2, p + 4);
        lemma_prefix_subrange(a, b, p + 4, p + 8);
        lemma_prefix_subrange(a, b, p + 8, p + 12);
    }
    assert(ea =~= eb);
}

/// An extracted entry payload stays extracted when bytes are appended.
pub proof fn lemma_entry_payload_prefix(
    a: Seq<u8>,
    b: Seq<u8>,
    e: Endian,
    vt: u16,
    count: u32,
    voff: u32,
)
    requires
        spec_is_prefix(a, b),
        crate::value::spec_entry_payload(a, e, vt, count, voff) is Some,
    ensures
        crate::value::spec_entry_payload(b, e, vt, count, voff) == crate::value::spec_entry_payload(
            a,
            e,
            vt,
            count,
            voff,
        ),
{
    let size = count * spec_element_width(vt);
    if size <= 4 {
    } else {
        lemma_prefix_subrange(a, b, voff as int, voff + size);
    }
}

/// Every directory table holds at least one entry.
pub open spec fn spec_all_nonempty(dirs: Seq<Seq<PendingEntry>>) -> bool {
    forall|i: int| 0 <= i < dirs.len() ==> (#[trigger] dirs[i]).len() >= 1
}

/// A written entry round-trips: the parsed record carries the pending
/// entry's tag number, type and count, its payload is recoverable from the
/// stream, and an out-of-line payload sits at an even offset past the header.
pub open spec fn spec_entry_written(data: Seq<u8>, e: Endian, pe: PendingEntry, re: IFDEntry) -> bool {
    &&& re.tag == spec_tag_from(spec_tag_value(pe.tag))
    &&& re.value_type == pe.value_type
    &&& re.count == pe.count
    &&& crate::value::spec_entry_payload(data, e, re.value_type, re.count, re.value_offset)
        == Some(pe.payload@)
    &&& (spec_is_big(pe) ==> re.value_offset % 2 == 0 && re.value_offset >= 8 && re.value_offset
        + pe.payload@.len() <= data.len())
    &&& (!spec_is_big(pe) ==> spec_u32_bytes(e, re.value_offset) == pe.payload@ + spec_zeros(
        4 - pe.payload@.len(),
    ))
}

/// The index of the first empty directory table, or the number of tables
/// when none is empty.  A wire directory cannot hold zero entries, so the
/// written chain ends just before the first empty table.
pub open spec fn spec_first_empty(dirs: Seq<Seq<PendingEntry>>) -> int
    decreases dirs.len(),
{
    if dirs.len() == 0 {
        0
    } else if dirs[0].len() == 0 {
        0
    } else {
        1 + spec_first_empty(dirs.drop_first())
    }
}

/// The first empty index lies in range, every table before it is nonempty,
/// and the table at it (when it exists) is empty.
pub proof fn lemma_first_empty(dirs: Seq<Seq<PendingEntry>>)
    ensures
        0 <= spec_first_empty(dirs) <= dirs.len(),
        forall|i: int| 0 <= i < spec_first_empty(dirs) ==> (#[trigger] dirs[i]).len() >= 1,
        spec_first_empty(dirs) < dirs.len() ==> dirs[spec_first_empty(dirs)].len() == 0,
        spec_all_nonempty(dirs) ==> spec_first_empty(dirs) == dirs.len(),
    decreases dirs.len(),
{
    if dirs.len() > 0 && dirs[0].len() > 0 {
        lemma_first_empty(dirs.drop_first());
        let m = spec_first_empty(dirs);
        assert forall|i: int| 0 <= i < m implies (#[trigger] dirs[i]).len() >= 1 by {
            if i > 0 {
                assert(dirs.drop_first()[i - 1] == dirs[i]);
            }
        }
        if m < dirs.len() {
            assert(dirs.drop_first()[m - 1] == dirs[m]);
        }
        if spec_all_nonempty(dirs) {
            assert forall|i: int|
                0 <= i < dirs.drop_first().len() implies (#[trigger] dirs.drop_first()[i]).len()
                >= 1 by {
                assert(dirs.drop_first()[i] == dirs[i + 1]);
            }
        }
    }
}

/// The first `m` written directory tables parse back from the stream: the
/// chain holds exactly `m` wire directories, matching the tables entry for
/// entry.
pub open spec fn spec_written_matches_upto(
    data: Seq<u8>,
    e: Endian,
    dirs: Seq<Seq<PendingEntry>>,
    m: int,
) -> bool {
    let chain = crate::ifd::spec_parse_chain(e, data, 8);
    &&& chain.len() == m
    &&& forall|i: int| 0 <= i < m ==> (#[trigger] chain[i]).len() == dirs[i].len()
    &&& forall|i: int, k: int|
        0 <= i < m && 0 <= k < dirs[i].len() ==> spec_entry_written(
            data,
            e,
            dirs[i][k],
            #[trigger] chain[i][k],
        )
}

/// The written stream parses back to the writer's whole model: one wire
/// directory per table, entry for entry.
pub open spec fn spec_written_matches(data: Seq<u8>, e: Endian, dirs: Seq<Seq<PendingEntry>>) -> bool {
    spec_written_matches_upto(data, e, dirs, dirs.len() as int)
}

/// Out-of-line offsets are even, move forwards, and end within the placement.
pub proof fn lemma_assign_bounds(entries: Seq<PendingEntry>, cur: int)
    requires
        0 <= cur,
    ensures
        forall|k: int|
            0 <= k < entries.len() && spec_is_big(#[trigger] entries[k]) ==> {
                &&& spec_assign_offsets(entries, cur)[k] % 2 == 0
                &&& cur <= spec_assign_offsets(entries, cur)[k]
                &&& spec_assign_offsets(entries, cur)[k] + entries[k].payload@.len()
                    <= spec_payload_end(entries, cur)
            },
    decreases entries.len(),
{
    lemma_assign_len(entries, cur);
    if entries.len() > 0 {
        if spec_is_big(entries[0]) {
            let cur2 = spec_align2(cur) + entries[0].payload@.len();
            lemma_assign_bounds(entries.drop_first(), cur2);
            lemma_assign_len(entries.drop_first(), cur2);
            lemma_payload_end_lower(entries.drop_first(), cur2);
            assert forall|k: int|
                0 <= k < entries.len() && spec_is_big(#[trigger] entries[k]) implies {
                &&& spec_assign_offsets(entries, cur)[k] % 2 == 0
                &&& cur <= spec_assign_offsets(entries, cur)[k]
                &&& spec_assign_offsets(entries, cur)[k] + entries[k].payload@.len()
                    <= spec_payload_end(entries, cur)
            } by {
                if k == 0 {
                    assert(spec_assign_offsets(entries, cur)[0] == spec_align2(cur));
                    assert(spec_payload_end(entries, cur) == spec_payload_end(
                        entries.drop_first(),
                        cur2,
                    ));
                } else {
                    assert(spec_assign_offsets(entries, cur)[k] == spec_assign_offsets(
                        entries.drop_first(),
                        cur2,
                    )[k - 1]);
                    assert(entries[k] == entries.drop_first()[k - 1]);
                }
            }
        } else {
            lemma_assign_bounds(entries.drop_first(), cur);
            lemma_assign_len(entries.drop_first(), cur);
            assert forall|k: int|
                0 <= k < entries.len() && spec_is_big(#[trigger] entries[k]) implies {
                &&& spec_assign_offsets(entries, cur)[k] % 2 == 0
                &&& cur <= spec_assign_offsets(entries, cur)[k]
                &&& spec_assign_offsets(entries, cur)[k] + entries[k].payload@.len()
                    <= spec_payload_end(entries, cur)
            } by {
                assert(k > 0);
                assert(spec_assign_offsets(entries, cur)[k] == spec_assign_offsets(
                    entries.drop_first(),
                    cur,
                )[k - 1]);
                assert(entries[k] == entries.drop_first()[k - 1]);
            }
        }
    }
}


/// The 12-byte record group at position `k` of a records region parses to
/// the pending entry's fields with its value-or-offset word.
#[verifier::rlimit(100)]
proof fn lemma_record_at(
    e: Endian,
    data: Seq<u8>,
    dir: Seq<PendingEntry>,
    voffs: Seq<u32>,
    dir_start: int,
    k: int,
)
    requires
        voffs.len() == dir.len(),
        0 <= k < dir.len(),
        0 <= dir_start,
        dir_start + 2 + 12 * dir.len() <= data.len(),
        data.subrange(dir_start + 2, dir_start + 2 + 12 * dir.len()) =~= spec_records_bytes(
            e,
            dir,
            voffs,
        ),
    ensures
        crate::ifd::spec_parse_entry(e, data, dir_start + 2 + 12 * k) == (IFDEntry {
            tag: spec_tag_from(spec_tag_value(dir[k].tag)),
            value_type: dir[k].value_type,
            count: dir[k].count,
            value_offset: voffs[k],
        }),
{
    let n = dir.len() as int;
    lemma_records_len(e, dir, voffs);
    lemma_records_index(e, dir, voffs, k);
    let p = dir_start + 2 + 12 * k;
    let rec = spec_entry_record(e, dir[k], voffs[k]);
    let region = data.subrange(dir_start + 2, dir_start + 2 + 12 * n);
    assert forall|q: int| 0 <= q < 12 implies data[p + q] == rec[q] by {
        assert(region[12 * k + q] == data[p + q]);
        assert(region.subrange(12 * k, 12 * k + 12)[q] == region[12 * k + q]);
    }
    let part_a = spec_u16_bytes(e, spec_tag_value(dir[k].tag));
    let part_b = spec_u16_bytes(e, dir[k].value_type);
    let part_c = spec_u32_bytes(e, dir[k].count);
    let part_d = spec_u32_bytes(e, voffs[k]);
    assert(part_a.len() == 2 && part_b.len() == 2 && part_c.len() == 4 && part_d.len() == 4);
    assert forall|q: int| 0 <= q < 12 implies rec[q] == (if q < 2 {
        part_a[q]
    } else if q < 4 {
        part_b[q - 2]
    } else if q < 8 {
        part_c[q - 4]
    } else {
        part_d[q - 8]
    }) by {
        assert(rec == part_a + part_b + part_c + part_d);
    }
    assert forall|q: int| 0 <= q < 2 implies data[p + q] == part_a[q] by {
        assert(data[p + q] == rec[q]);
    }
    assert forall|q: int| 0 <= q < 2 implies data[p + 2 + q] == part_b[q] by {
        assert(data[p + (2 + q)] == rec[2 + q]);
    }
    assert forall|q: int| 0 <= q < 4 implies data[p + 4 + q] == part_c[q] by {
        assert(data[p + (4 + q)] == rec[4 + q]);
    }
    assert forall|q: int| 0 <= q < 4 implies data[p + 8 + q] == part_d[q] by {
        assert(data[p + (8 + q)] == rec[8 + q]);
    }
    assert(data.subrange(p, p + 2) =~= part_a);
    assert(data.subrange(p + 2, p + 4) =~= part_b);
    assert(data.subrange(p + 4, p + 8) =~= part_c);
    assert(data.subrange(p + 8, p + 12) =~= part_d);
    lemma_u16_roundtrip(e, spec_tag_value(dir[k].tag));
    lemma_u16_roundtrip(e, dir[k].value_type);
    lemma_u32_roundtrip(e, dir[k].count);
    lemma_u32_roundtrip(e, voffs[k]);
}

/// A directory region whose count, records, next word and payload blob sit
/// at their layout positions parses back to the pending table.
#[verifier::rlimit(100)]
pub proof fn lemma_dir_region_parses(
    e: Endian,
    data: Seq<u8>,
    dir: Seq<PendingEntry>,
    voffs: Seq<u32>,
    dir_start: int,
    next_word: u32,
) -> (raw: Seq<IFDEntry>)
    requires
        spec_dir_wf(dir),
        1 <= dir.len() <= 0xFFFF,
        8 <= dir_start,
        voffs.len() == dir.len(),
        spec_payload_end(dir, dir_start + 2 + 12 * dir.len() + 4) <= data.len(),
        data.subrange(dir_start, dir_start + 2) =~= spec_u16_bytes(e, dir.len() as u16),
        data.subrange(dir_start + 2, dir_start + 2 + 12 * dir.len()) =~= spec_records_bytes(
            e,
            dir,
            voffs,
        ),
        data.subrange(
            dir_start + 2 + 12 * dir.len(),
            dir_start + 2 + 12 * dir.len() + 4,
        ) =~= spec_u32_bytes(e, next_word),
        data.subrange(
            dir_start + 2 + 12 * dir.len() + 4,
            spec_payload_end(dir, dir_start + 2 + 12 * dir.len() + 4),
        ) =~= spec_payloads_bytes(dir, dir_start + 2 + 12 * dir.len() + 4),
        forall|k: int|
            0 <= k < dir.len() && spec_is_big(#[trigger] dir[k]) ==> voffs[k] as int
                == spec_assign_offsets(dir, dir_start + 2 + 12 * dir.len() + 4)[k],
        forall|k: int|
            0 <= k < dir.len() && !spec_is_big(#[trigger] dir[k]) ==> spec_u32_bytes(
                e,
                voffs[k],
            ) == dir[k].payload@ + spec_zeros(4 - dir[k].payload@.len()),
    ensures
        raw.len() == dir.len(),
        crate::ifd::spec_parse_ifd(e, data, dir_start) == Some((raw, next_word)),
        forall|k: int|
            0 <= k < dir.len() ==> spec_entry_written(data, e, #[trigger] dir[k], raw[k]),
        forall|k: int|
            0 <= k < dir.len() ==> (#[trigger] raw[k]).tag == spec_tag_from(
                spec_tag_value(dir[k].tag),
            ),
{
    let n = dir.len() as int;
    let ool = dir_start + 2 + 12 * n + 4;
    lemma_u16_roundtrip(e, dir.len() as u16);
    assert(spec_u16_from(e, data.subrange(dir_start, dir_start + 2)) == dir.len() as u16);
    lemma_u32_roundtrip(e, next_word);
    assert(spec_u32_from(e, data.subrange(dir_start + 2 + 12 * n, dir_start + 2 + 12 * n + 4))
        == next_word);
    lemma_payload_end_lower(dir, ool);
    let result = Seq::new(n as nat, |i: int| crate::ifd::spec_parse_entry(e, data, dir_start + 2 + 12 * i));
    assert(crate::ifd::spec_parse_ifd(e, data, dir_start) == Some((result, next_word)));
    lemma_records_len(e, dir, voffs);
    lemma_payloads_extract(data, dir, ool);
    lemma_assign_bounds(dir, ool);
    assert forall|k: int| 0 <= k < n implies {
        &&& (#[trigger] result[k]).tag == spec_tag_from(spec_tag_value(dir[k].tag))
        &&& result[k].value_type == dir[k].value_type
        &&& result[k].count == dir[k].count
        &&& result[k].value_offset == voffs[k]
    } by {
        lemma_record_at(e, data, dir, voffs, dir_start, k);
    }
    assert forall|k: int| 0 <= k < n implies spec_entry_written(
        data,
        e,
        #[trigger] dir[k],
        result[k],
    ) by {
        assert(spec_pending_wf(dir[k]));
        let size = dir[k].count * spec_element_width(dir[k].value_type);
        assert(size == dir[k].payload@.len());
        if spec_is_big(dir[k]) {
            assert(voffs[k] as int == spec_assign_offsets(dir, ool)[k]);
            assert(spec_assign_offsets(dir, ool)[k] + dir[k].payload@.len()
                <= spec_payload_end(dir, ool));
            assert(data.subrange(voffs[k] as int, voffs[k] as int + dir[k].payload@.len())
                =~= dir[k].payload@);
            assert(crate::value::spec_entry_payload(
                data,
                e,
                dir[k].value_type,
                dir[k].count,
                voffs[k],
            ) == Some(dir[k].payload@));
        } else {
            assert(size <= 4);
            assert(spec_u32_bytes(e, voffs[k]) == dir[k].payload@ + spec_zeros(
                4 - dir[k].payload@.len(),
            ));
            assert(spec_u32_bytes(e, voffs[k]).take(size as int) =~= dir[k].payload@);
        }
    }
    result
}

/// Directories whose parse facts link each one's next word to the following
/// directory's start form exactly the parsed chain up to a terminator: a
/// zero next word, or a link to an offset where no directory parses.
pub proof fn lemma_chain_build(
    e: Endian,
    data: Seq<u8>,
    starts: Seq<int>,
    raws: Seq<Seq<IFDEntry>>,
    nexts: Seq<u32>,
    i: int,
    m: int,
)
    requires
        starts.len() == raws.len(),
        starts.len() == nexts.len(),
        0 <= i < m <= starts.len(),
        forall|j: int| 0 <= j < m ==> 8 <= #[trigger] starts[j] <= data.len(),
        forall|j: int|
            0 <= j < m ==> crate::ifd::spec_parse_ifd(e, data, #[trigger] starts[j]) == Some(
                (raws[j], nexts[j]),
            ),
        forall|j: int|
            0 <= j < m - 1 ==> (#[trigger] nexts[j]) as int == starts[j + 1] && starts[j]
                < starts[j + 1],
        nexts[m - 1] == 0 || (starts[m - 1] < nexts[m - 1] <= data.len()
            && crate::ifd::spec_parse_ifd(e, data, nexts[m - 1] as int) is None),
    ensures
        crate::ifd::spec_parse_chain(e, data, starts[i]) =~= raws.subrange(i, m),
    decreases m - i,
{
    let off = starts[i];
    assert(crate::ifd::spec_parse_ifd(e, data, off) == Some((raws[i], nexts[i])));
    if i == m - 1 {
        if nexts[i] == 0 {
            assert(!(off < nexts[i] as int));
            assert(crate::ifd::spec_parse_chain(e, data, off) =~= seq![raws[i]]);
        } else {
            assert(off < nexts[i] as int <= data.len());
            assert(crate::ifd::spec_parse_ifd(e, data, nexts[i] as int) is None);
            assert(crate::ifd::spec_parse_chain(e, data, nexts[i] as int)
                =~= Seq::<Seq<IFDEntry>>::empty());
            assert(crate::ifd::spec_parse_chain(e, data, off) =~= seq![raws[i]]
                + crate::ifd::spec_parse_chain(e, data, nexts[i] as int));
        }
        assert(raws.subrange(i, m) =~= seq![raws[i]]);
    } else {
        assert(nexts[i] as int == starts[i + 1]);
        assert(off < nexts[i] as int <= data.len());
        lemma_chain_build(e, data, starts, raws, nexts, i + 1, m);
        assert(crate::ifd::spec_parse_chain(e, data, off) =~= seq![raws[i]]
            + crate::ifd::spec_parse_chain(e, data, starts[i + 1]));
        assert(seq![raws[i]] + raws.subrange(i + 1, m) =~= raws.subrange(i, m));
    }
}

/// A directory whose count word is zero parses as no directory at all, in
/// this stream and in any extension of it.
pub proof fn lemma_zero_count_parses_none(e: Endian, a: Seq<u8>, b: Seq<u8>, off: int)
    requires
        spec_is_prefix(a, b),
        0 <= off,
        off + 2 <= a.len(),
        spec_u16_from(e, a.subrange(off, off + 2)) == 0,
    ensures
        crate::ifd::spec_parse_ifd(e, b, off) is None,
{
    lemma_prefix_subrange(a, b, off, off + 2);
}


/// Appending bytes preserves every parse fact of the already-written
/// directories, and the zero count word of an already-written empty one.
proof fn lemma_write_facts_stable(
    e: Endian,
    dirs: Seq<Seq<PendingEntry>>,
    di: int,
    m: int,
    bh: Seq<u8>,
    bnew: Seq<u8>,
    starts: Seq<int>,
    raws: Seq<Seq<IFDEntry>>,
    nexts: Seq<u32>,
)
    requires
        spec_is_prefix(bh, bnew),
        0 <= m,
        starts.len() == di,
        raws.len() == di,
        nexts.len() == di,
        forall|j: int| 0 <= j < di ==> 8 <= #[trigger] starts[j] <= bh.len(),
        forall|j: int|
            0 <= j < di && j < m ==> crate::ifd::spec_parse_ifd(e, bh, #[trigger] starts[j])
                == Some((raws[j], nexts[j])),
        forall|j: int, k: int|
            0 <= j < di && j < m && 0 <= k < dirs[j].len() ==> spec_entry_written(
                bh,
                e,
                dirs[j][k],
                #[trigger] raws[j][k],
            ),
        m < di ==> starts[m] + 2 <= bh.len() && spec_u16_from(
            e,
            bh.subrange(starts[m], starts[m] + 2),
        ) == 0,
    ensures
        forall|j: int| 0 <= j < di ==> 8 <= #[trigger] starts[j] <= bnew.len(),
        forall|j: int|
            0 <= j < di && j < m ==> crate::ifd::spec_parse_ifd(e, bnew, #[trigger] starts[j])
                == Some((raws[j], nexts[j])),
        forall|j: int, k: int|
            0 <= j < di && j < m && 0 <= k < dirs[j].len() ==> spec_entry_written(
                bnew,
                e,
                dirs[j][k],
                #[trigger] raws[j][k],
            ),
        m < di ==> starts[m] + 2 <= bnew.len() && spec_u16_from(
            e,
            bnew.subrange(starts[m], starts[m] + 2),
        ) == 0,
{
    assert forall|j: int|
        0 <= j < di && j < m implies crate::ifd::spec_parse_ifd(e, bnew, #[trigger] starts[j])
        == Some((raws[j], nexts[j])) by {
        lemma_parse_ifd_prefix(e, bh, bnew, starts[j]);
    }
    assert forall|j: int, k: int|
        0 <= j < di && j < m && 0 <= k < dirs[j].len() implies spec_entry_written(
        bnew,
        e,
        dirs[j][k],
        #[trigger] raws[j][k],
    ) by {
        assert(spec_entry_written(bh, e, dirs[j][k], raws[j][k]));
        lemma_entry_payload_prefix(
            bh,
            bnew,
            e,
            raws[j][k].value_type,
            raws[j][k].count,
            raws[j][k].value_offset,
        );
    }
    if m < di {
        assert(8 <= starts[m]);
        lemma_prefix_subrange(bh, bnew, starts[m], starts[m] + 2);
    }
}

/// An emitted empty directory starts with a zero count word.
proof fn lemma_empty_dir_count_zero(
    e: Endian,
    gdir: Seq<PendingEntry>,
    bh: Seq<u8>,
    bnew: Seq<u8>,
    pos_head: int,
    dir_start: int,
    next_word: u32,
)
    requires
        gdir.len() == 0,
        0 <= pos_head == bh.len(),
        dir_start == spec_align2(pos_head),
        bnew == bh + spec_pad(pos_head) + spec_dir_bytes(e, gdir, dir_start, next_word),
    ensures
        dir_start + 2 <= bnew.len(),
        spec_u16_from(e, bnew.subrange(dir_start, dir_start + 2)) == 0,
{
    assert(spec_dir_bytes(e, gdir, dir_start, next_word) == spec_u16_bytes(e, 0)
        + spec_records_bytes(e, gdir, spec_dir_voffs(e, gdir, dir_start + 2 + 12 * gdir.len() + 4))
        + spec_u32_bytes(e, next_word) + spec_payloads_bytes(
        gdir,
        dir_start + 2 + 12 * gdir.len() + 4,
    ));
    assert(bnew.subrange(dir_start, dir_start + 2) =~= spec_u16_bytes(e, 0u16));
    lemma_u16_roundtrip(e, 0);
}

/// One directory emission extends the exact byte stream/// One directory emission extends the exact byte stream by exactly its pad
/// and directory bytes.
proof fn lemma_write_step_bytes(
    e: Endian,
    dirs: Seq<Seq<PendingEntry>>,
    di: int,
    pos_head: int,
    bh: Seq<u8>,
    buf_new: Seq<u8>,
    dir_start: int,
    next_word: u32,
    pos_new: int,
)
    requires
        0 <= di < dirs.len(),
        dir_start == spec_align2(pos_head),
        pos_new == spec_dir_end(dirs[di], dir_start),
        next_word as int == (if di == dirs.len() - 1 {
            0int
        } else {
            spec_align2(pos_new)
        }),
        buf_new == bh + spec_pad(pos_head) + spec_dir_bytes(e, dirs[di], dir_start, next_word),
        spec_write_bytes(e, dirs) == bh + spec_dirs_bytes(e, dirs.skip(di), pos_head),
    ensures
        spec_write_bytes(e, dirs) == buf_new + spec_dirs_bytes(e, dirs.skip(di + 1), pos_new),
{
    lemma_dirs_bytes_step(e, dirs, di, pos_head);
    let nw: u32 = if di == dirs.len() - 1 {
        0
    } else {
        spec_align2(pos_new) as u32
    };
    assert(next_word == nw);
    assert(spec_dirs_bytes(e, dirs.skip(di), pos_head) == spec_pad(pos_head) + spec_dir_bytes(
        e,
        dirs[di],
        dir_start,
        nw,
    ) + spec_dirs_bytes(e, dirs.skip(di + 1), pos_new));
    assert(bh + (spec_pad(pos_head) + spec_dir_bytes(e, dirs[di], dir_start, next_word)
        + spec_dirs_bytes(e, dirs.skip(di + 1), pos_new)) =~= (bh + spec_pad(pos_head)
        + spec_dir_bytes(e, dirs[di], dir_start, next_word)) + spec_dirs_bytes(
        e,
        dirs.skip(di + 1),
        pos_new,
    ));
}




/// Emits the exact 8-byte header.
fn emit_header(out_buff: &mut Vec<u8>, endian: Endian)
    requires
        old(out_buff)@.len() == 0,
    ensures
        final(out_buff)@ == spec_header_bytes(endian),
        final(out_buff)@.len() == 8,
        crate::reader::spec_parse_header(final(out_buff)@) == Some((endian, 8u32)),
{
    match endian {
        Endian::Little => {
            out_buff.push(0x49);
            out_buff.push(0x49);
        },
        Endian::Big => {
            out_buff.push(0x4d);
            out_buff.push(0x4d);
        },
    }
    push_u16(out_buff, endian, 42);
    push_u32(out_buff, endian, 8);
    proof {
        assert(out_buff@.len() == 8);
        lemma_u16_roundtrip(endian, 42);
        lemma_u32_roundtrip(endian, 8);
        assert(out_buff@.subrange(2, 4) =~= spec_u16_bytes(endian, 42));
        assert(out_buff@.subrange(4, 8) =~= spec_u32_bytes(endian, 8));
        assert(crate::reader::spec_parse_header(out_buff@) == Some((endian, 8u32)));
        assert(out_buff@ =~= spec_header_bytes(endian));
    }
}

/// The facts one directory emission establishes: the buffer grew by exactly
/// the directory's bytes, and (when the directory is nonempty) its region
/// parses back to the pending table.
#[verifier::rlimit(100)]
proof fn lemma_dir_emit_facts(
    endian: Endian,
    base_buf: Seq<u8>,
    b0: Seq<u8>,
    b1: Seq<u8>,
    b2: Seq<u8>,
    b3: Seq<u8>,
    bf: Seq<u8>,
    gdir: Seq<PendingEntry>,
    voffs: Seq<u32>,
    position: int,
    dir_start: int,
    ool_base: int,
    next_word: u32,
) -> (raw: Seq<IFDEntry>)
    requires
        spec_dir_wf(gdir),
        gdir.len() <= 0xFFFF,
        8 <= position,
        dir_start == spec_align2(position),
        b0 == base_buf + spec_pad(position),
        dir_start == b0.len(),
        b1 == b0 + spec_u16_bytes(endian, gdir.len() as u16),
        b2 == b1 + spec_records_bytes(endian, gdir, voffs),
        b3 == b2 + spec_u32_bytes(endian, next_word),
        bf == b3 + spec_payloads_bytes(gdir, ool_base),
        ool_base == dir_start + 2 + 12 * gdir.len() + 4,
        ool_base == b3.len(),
        voffs.len() == gdir.len(),
        forall|k: int|
            0 <= k < gdir.len() && spec_is_big(#[trigger] gdir[k]) ==> voffs[k] as int
                == spec_assign_offsets(gdir, ool_base)[k],
        forall|k: int|
            0 <= k < gdir.len() && !spec_is_big(#[trigger] gdir[k]) ==> spec_u32_bytes(
                endian,
                voffs[k],
            ) == gdir[k].payload@ + spec_zeros(4 - gdir[k].payload@.len()),
    ensures
        bf == base_buf + spec_pad(position) + spec_dir_bytes(endian, gdir, dir_start, next_word),
        gdir.len() >= 1 ==> {
            &&& raw.len() == gdir.len()
            &&& crate::ifd::spec_parse_ifd(endian, bf, dir_start) == Some((raw, next_word))
            &&& forall|k: int|
                0 <= k < gdir.len() ==> spec_entry_written(bf, endian, #[trigger] gdir[k], raw[k])
        },
{
    lemma_records_len(endian, gdir, voffs);
    lemma_payloads_len(gdir, ool_base);
    lemma_voffs_exact(endian, gdir, voffs, ool_base);
    assert(spec_records_bytes(endian, gdir, voffs) == spec_records_bytes(
        endian,
        gdir,
        spec_dir_voffs(endian, gdir, ool_base),
    ));
    assert(bf =~= base_buf + spec_pad(position) + spec_dir_bytes(
        endian,
        gdir,
        dir_start,
        next_word,
    ));
    assert(spec_is_prefix(b1, bf));
    assert(spec_is_prefix(b2, bf));
    assert(spec_is_prefix(b3, bf));
    if gdir.len() >= 1 {
        lemma_prefix_subrange(b1, bf, dir_start, dir_start + 2);
        assert(b1.subrange(dir_start, dir_start + 2) =~= spec_u16_bytes(
            endian,
            gdir.len() as u16,
        ));
        lemma_prefix_subrange(b2, bf, dir_start + 2, dir_start + 2 + 12 * gdir.len());
        assert(b2.subrange(dir_start + 2, dir_start + 2 + 12 * gdir.len()) =~= spec_records_bytes(
            endian,
            gdir,
            voffs,
        ));
        lemma_prefix_subrange(
            b3,
            bf,
            dir_start + 2 + 12 * gdir.len(),
            dir_start + 2 + 12 * gdir.len() + 4,
        );
        assert(b3.subrange(dir_start + 2 + 12 * gdir.len(), dir_start + 2 + 12 * gdir.len() + 4)
            =~= spec_u32_bytes(endian, next_word));
        assert(bf.subrange(ool_base, spec_payload_end(gdir, ool_base)) =~= spec_payloads_bytes(
            gdir,
            ool_base,
        ));
        let r = lemma_dir_region_parses(endian, bf, gdir, voffs, dir_start, next_word);
        r
    } else {
        Seq::empty()
    }
}



/// The facts the emission loop carries about the directories written so
/// far: their start offsets, their parsed records, and the links between
/// them.  Kept opaque so that the loop itself reasons about it only through
/// the lemmas below.
#[verifier::opaque]
spec fn spec_emit_facts(
    e: Endian,
    dirs: Seq<Seq<PendingEntry>>,
    di: int,
    m: int,
    buf: Seq<u8>,
    pos: int,
    starts: Seq<int>,
    raws: Seq<Seq<IFDEntry>>,
    nexts: Seq<u32>,
) -> bool {
    &&& starts.len() == di
    &&& raws.len() == di
    &&& nexts.len() == di
    &&& (di >= 1 ==> starts[0] == 8)
    &&& forall|j: int| 0 <= j < di ==> 8 <= #[trigger] starts[j] <= buf.len()
    &&& forall|j: int|
        0 <= j < di - 1 ==> (#[trigger] nexts[j]) as int == starts[j + 1] && starts[j]
            < starts[j + 1]
    &&& (di >= 1 && di < dirs.len() ==> nexts[di - 1] as int == spec_align2(pos) && starts[di - 1]
        < spec_align2(pos))
    &&& (di >= 1 && di == dirs.len() ==> nexts[di - 1] == 0)
    &&& forall|j: int|
        0 <= j < di && j < m ==> crate::ifd::spec_parse_ifd(e, buf, #[trigger] starts[j]) == Some(
            (raws[j], nexts[j]),
        )
    &&& forall|j: int| 0 <= j < di && j < m ==> (#[trigger] raws[j]).len() == dirs[j].len()
    &&& forall|j: int, k: int|
        0 <= j < di && j < m && 0 <= k < dirs[j].len() ==> spec_entry_written(
            buf,
            e,
            dirs[j][k],
            #[trigger] raws[j][k],
        )
    &&& (0 <= m < di ==> starts[m] + 2 <= buf.len() && spec_u16_from(
        e,
        buf.subrange(starts[m], starts[m] + 2),
    ) == 0)
}

/// Before any directory is written, the loop facts hold vacuously.
proof fn lemma_emit_facts_init(
    e: Endian,
    dirs: Seq<Seq<PendingEntry>>,
    m: int,
    buf: Seq<u8>,
    pos: int,
)
    ensures
        spec_emit_facts(
            e,
            dirs,
            0,
            m,
            buf,
            pos,
            Seq::<int>::empty(),
            Seq::<Seq<IFDEntry>>::empty(),
            Seq::<u32>::empty(),
        ),
{
    reveal(spec_emit_facts);
}

/// Re-establishes every per-directory fact of the emission loop after one
/// directory has been written and the ghost lists are extended.
#[verifier::rlimit(100)]
proof fn lemma_write_loop_ghost(
    e: Endian,
    dirs: Seq<Seq<PendingEntry>>,
    di: int,
    m: int,
    bh: Seq<u8>,
    bf: Seq<u8>,
    starts: Seq<int>,
    raws: Seq<Seq<IFDEntry>>,
    nexts: Seq<u32>,
    raw: Seq<IFDEntry>,
    next_word: u32,
    dir_start: int,
    pos_head: int,
    pos_new: int,
)
    requires
        0 <= di < dirs.len(),
        m == spec_first_empty(dirs),
        pos_head == bh.len(),
        8 <= pos_head,
        di == 0 ==> pos_head == 8,
        spec_emit_facts(e, dirs, di, m, bh, pos_head, starts, raws, nexts),
        spec_is_prefix(bh, bf),
        dir_start == spec_align2(pos_head),
        pos_new == spec_dir_end(dirs[di], dir_start),
        bf.len() == pos_new,
        bf == bh + spec_pad(pos_head) + spec_dir_bytes(e, dirs[di], dir_start, next_word),
        next_word as int == (if di == dirs.len() - 1 {
            0int
        } else {
            spec_align2(pos_new)
        }),
        dirs[di].len() >= 1 ==> {
            &&& raw.len() == dirs[di].len()
            &&& crate::ifd::spec_parse_ifd(e, bf, dir_start) == Some((raw, next_word))
            &&& forall|k: int|
                0 <= k < dirs[di].len() ==> spec_entry_written(
                    bf,
                    e,
                    #[trigger] dirs[di][k],
                    raw[k],
                )
        },
    ensures
        spec_emit_facts(
            e,
            dirs,
            di + 1,
            m,
            bf,
            pos_new,
            starts.push(dir_start),
            raws.push(raw),
            nexts.push(next_word),
        ),
{
    reveal(spec_emit_facts);
    lemma_first_empty(dirs);
    lemma_write_facts_stable(e, dirs, di, m, bh, bf, starts, raws, nexts);
    lemma_payload_end_lower(dirs[di], dir_start + 2 + 12 * dirs[di].len() + 4);
    assert(dir_start < pos_new);
    let starts2 = starts.push(dir_start);
    let raws2 = raws.push(raw);
    let nexts2 = nexts.push(next_word);
    assert forall|j: int| 0 <= j < di + 1 implies 8 <= #[trigger] starts2[j] <= bf.len() by {
        if j < di {
            assert(starts2[j] == starts[j]);
        } else {
            assert(starts2[j] == dir_start);
        }
    }
    assert forall|j: int|
        0 <= j < di implies (#[trigger] nexts2[j]) as int == starts2[j + 1] && starts2[j]
        < starts2[j + 1] by {
        if j < di - 1 {
            assert(nexts2[j] == nexts[j] && starts2[j] == starts[j] && starts2[j + 1] == starts[j
                + 1]);
        } else {
            assert(nexts2[j] == nexts[di - 1] && starts2[j + 1] == dir_start);
        }
    }
    assert forall|j: int|
        0 <= j < di + 1 && j < m implies crate::ifd::spec_parse_ifd(e, bf, #[trigger] starts2[j])
        == Some((raws2[j], nexts2[j])) by {
        if j < di {
            assert(starts2[j] == starts[j] && raws2[j] == raws[j] && nexts2[j] == nexts[j]);
        } else {
            assert(dirs[di].len() >= 1);
            assert(starts2[j] == dir_start && raws2[j] == raw && nexts2[j] == next_word);
        }
    }
    assert forall|j: int|
        0 <= j < di + 1 && j < m implies (#[trigger] raws2[j]).len() == dirs[j].len() by {
        if j < di {
            assert(raws2[j] == raws[j]);
        } else {
            assert(dirs[di].len() >= 1);
            assert(raws2[j] == raw);
        }
    }
    assert forall|j: int, k: int|
        0 <= j < di + 1 && j < m && 0 <= k < dirs[j].len() implies spec_entry_written(
        bf,
        e,
        dirs[j][k],
        #[trigger] raws2[j][k],
    ) by {
        if j < di {
            assert(raws2[j] == raws[j]);
            assert(spec_entry_written(bf, e, dirs[j][k], raws[j][k]));
        } else {
            assert(dirs[di].len() >= 1);
            assert(raws2[j] == raw);
            assert(spec_entry_written(bf, e, dirs[di][k], raw[k]));
        }
    }
    if 0 <= m < di + 1 {
        if m < di {
            assert(starts2[m] == starts[m]);
        } else {
            assert(m == di);
            assert(m < dirs.len());
            assert(dirs[m].len() == 0);
            lemma_empty_dir_count_zero(e, dirs[di], bh, bf, pos_head, dir_start, next_word);
            assert(starts2[m] == dir_start);
        }
    }
    assert(starts2[0] == 8) by {
        if di == 0 {
            assert(starts2[0] == dir_start);
            assert(dir_start == spec_align2(8));
        } else {
            assert(starts2[0] == starts[0]);
        }
    }
    assert(di + 1 >= 1 && di + 1 < dirs.len() ==> nexts2[di] as int == spec_align2(pos_new)
        && starts2[di] < spec_align2(pos_new)) by {
        assert(nexts2[di] == next_word);
        assert(starts2[di] == dir_start);
        assert(dir_start < pos_new <= spec_align2(pos_new));
    }
    assert(di + 1 == dirs.len() ==> nexts2[di] == 0);
}

/// Assembles the truncated parse-back statement from the per-directory
/// facts the emission loop collects.
proof fn lemma_write_finish(
    e: Endian,
    dirs: Seq<Seq<PendingEntry>>,
    m: int,
    buf: Seq<u8>,
    pos: int,
    starts: Seq<int>,
    raws: Seq<Seq<IFDEntry>>,
    nexts: Seq<u32>,
)
    requires
        dirs.len() >= 1,
        m == spec_first_empty(dirs),
        spec_emit_facts(e, dirs, dirs.len() as int, m, buf, pos, starts, raws, nexts),
    ensures
        spec_written_matches_upto(buf, e, dirs, m),
{
    reveal(spec_emit_facts);
    lemma_first_empty(dirs);
    let chain = crate::ifd::spec_parse_chain(e, buf, 8);
    assert(spec_is_prefix(buf, buf));
    if m == 0 {
        lemma_zero_count_parses_none(e, buf, buf, 8);
        assert(chain =~= Seq::<Seq<IFDEntry>>::empty());
    } else {
        if m < dirs.len() {
            assert(nexts[m - 1] as int == starts[m]);
            lemma_zero_count_parses_none(e, buf, buf, starts[m]);
            assert(crate::ifd::spec_parse_ifd(e, buf, nexts[m - 1] as int) is None);
        } else {
            assert(nexts[m - 1] == 0);
        }
        lemma_chain_build(e, buf, starts, raws, nexts, 0, m);
        assert(chain =~= raws.subrange(0, m));
        assert(chain.len() == m);
        assert forall|i: int| 0 <= i < m implies (#[trigger] chain[i]).len() == dirs[i].len() by {
            assert(chain[i] == raws[i]);
        }
        assert forall|i: int, k: int|
            0 <= i < m && 0 <= k < dirs[i].len() implies spec_entry_written(
            buf,
            e,
            dirs[i][k],
            #[trigger] chain[i][k],
        ) by {
            assert(chain[i] == raws[i]);
            assert(spec_entry_written(buf, e, dirs[i][k], raws[i][k]));
        }
    }
}

/// Prefixes compose.
proof fn lemma_prefix_trans(a: Seq<u8>, b: Seq<u8>, c: Seq<u8>)
    requires
        spec_is_prefix(a, b),
        spec_is_prefix(b, c),
    ensures
        spec_is_prefix(a, c),
{
}




/// Emits the tag, type and count words of one 12-byte record.
fn emit_record_prefix(out_buff: &mut Vec<u8>, endian: Endian, code: u16, vt: u16, count: u32)
    ensures
        final(out_buff)@ == old(out_buff)@ + spec_u16_bytes(endian, code) + spec_u16_bytes(
            endian,
            vt,
        ) + spec_u32_bytes(endian, count),
{
    push_u16(out_buff, endian, code);
    push_u16(out_buff, endian, vt);
    push_u32(out_buff, endian, count);
    proof {
        assert(out_buff@ =~= old(out_buff)@ + spec_u16_bytes(endian, code) + spec_u16_bytes(
            endian,
            vt,
        ) + spec_u32_bytes(endian, count));
    }
}

/// Emits an inline value slot: the payload left-justified, zero bytes
/// padding the right, and returns the 32-bit word those four bytes encode.
fn emit_inline_slot(out_buff: &mut Vec<u8>, endian: Endian, payload: &Vec<u8>) -> (voff: u32)
    requires
        payload@.len() <= 4,
    ensures
        spec_u32_bytes(endian, voff) == payload@ + spec_zeros(4 - payload@.len()),
        final(out_buff)@ == old(out_buff)@ + spec_u32_bytes(endian, voff),
{
    let plen = payload.len();
    let s0: u8 = if plen > 0 { payload[0] } else { 0 };
    let s1: u8 = if plen > 1 { payload[1] } else { 0 };
    let s2: u8 = if plen > 2 { payload[2] } else { 0 };
    let s3: u8 = if plen > 3 { payload[3] } else { 0 };
    let slot: [u8; 4] = [s0, s1, s2, s3];
    let voff = endian.long_from_bytes(slot);
    proof {
        lemma_u32_bytes_roundtrip(endian, slot@);
        assert(spec_u32_bytes(endian, voff) =~= slot@);
        assert(slot@ =~= payload@ + spec_zeros(4 - payload@.len()));
    }
    out_buff.push(s0);
    out_buff.push(s1);
    out_buff.push(s2);
    out_buff.push(s3);
    proof {
        assert(out_buff@ =~= old(out_buff)@ + spec_u32_bytes(endian, voff));
    }
    voff
}

/// Pushing one entry's value-or-offset word maintains the per-entry facts
/// of the record-emission walk.
proof fn lemma_voffs_step(
    e: Endian,
    ifd: Seq<PendingEntry>,
    j: int,
    gbase: int,
    position: u64,
    pre_voffs: Seq<u32>,
    voff: u32,
)
    requires
        0 <= j < ifd.len(),
        pre_voffs.len() == j,
        forall|k: int|
            0 <= k < j && spec_is_big(#[trigger] ifd[k]) ==> {
                &&& pre_voffs[k] as int == spec_assign_offsets(ifd.take(j), gbase)[k]
                &&& pre_voffs[k] % 2 == 0
                &&& pre_voffs[k] as int >= position
            },
        forall|k: int|
            0 <= k < j && !spec_is_big(#[trigger] ifd[k]) ==> spec_u32_bytes(
                e,
                pre_voffs[k],
            ) == ifd[k].payload@ + spec_zeros(4 - ifd[k].payload@.len()),
        spec_is_big(ifd[j]) ==> {
            &&& voff as int == spec_align2(spec_payload_end(ifd.take(j), gbase))
            &&& voff % 2 == 0
            &&& voff as int >= position
        },
        !spec_is_big(ifd[j]) ==> spec_u32_bytes(e, voff) == ifd[j].payload@ + spec_zeros(
            4 - ifd[j].payload@.len(),
        ),
    ensures
        forall|k: int|
            0 <= k < j + 1 && spec_is_big(#[trigger] ifd[k]) ==> {
                &&& pre_voffs.push(voff)[k] as int == spec_assign_offsets(
                    ifd.take(j + 1),
                    gbase,
                )[k]
                &&& pre_voffs.push(voff)[k] % 2 == 0
                &&& pre_voffs.push(voff)[k] as int >= position
            },
        forall|k: int|
            0 <= k < j + 1 && !spec_is_big(#[trigger] ifd[k]) ==> spec_u32_bytes(
                e,
                pre_voffs.push(voff)[k],
            ) == ifd[k].payload@ + spec_zeros(4 - ifd[k].payload@.len()),
{
    let pre_take = ifd.take(j);
    assert(pre_take.push(ifd[j]) =~= ifd.take(j + 1));
    lemma_payload_end_push(pre_take, ifd[j], gbase);
    lemma_assign_len(pre_take, gbase);
    lemma_assign_len(ifd.take(j + 1), gbase);
    let pushed = pre_voffs.push(voff);
    assert forall|k: int|
        0 <= k < j + 1 && spec_is_big(#[trigger] ifd[k]) implies {
        &&& pushed[k] as int == spec_assign_offsets(ifd.take(j + 1), gbase)[k]
        &&& pushed[k] % 2 == 0
        &&& pushed[k] as int >= position
    } by {
        if k < j {
            assert(pushed[k] == pre_voffs[k]);
            assert(spec_assign_offsets(ifd.take(j + 1), gbase)[k] == spec_assign_offsets(
                pre_take,
                gbase,
            )[k]);
        } else {
            assert(pushed[k] == voff);
            assert(spec_assign_offsets(ifd.take(j + 1), gbase)[k] == spec_align2(
                spec_payload_end(pre_take, gbase),
            ));
        }
    }
    assert forall|k: int|
        0 <= k < j + 1 && !spec_is_big(#[trigger] ifd[k]) implies spec_u32_bytes(
        e,
        pushed[k],
    ) == ifd[k].payload@ + spec_zeros(4 - ifd[k].payload@.len()) by {
        if k < j {
            assert(pushed[k] == pre_voffs[k]);
        } else {
            assert(pushed[k] == voff);
        }
    }
}

/// The value-or-offset words the emission computes are exactly the
/// specified ones.
proof fn lemma_voffs_exact(e: Endian, dir: Seq<PendingEntry>, voffs: Seq<u32>, base: int)
    requires
        voffs.len() == dir.len(),
        forall|k: int|
            0 <= k < dir.len() && spec_is_big(#[trigger] dir[k]) ==> voffs[k] as int
                == spec_assign_offsets(dir, base)[k],
        forall|k: int|
            0 <= k < dir.len() && !spec_is_big(#[trigger] dir[k]) ==> spec_u32_bytes(
                e,
                voffs[k],
            ) == dir[k].payload@ + spec_zeros(4 - dir[k].payload@.len()),
    ensures
        voffs =~= spec_dir_voffs(e, dir, base),
{
    lemma_assign_len(dir, base);
    assert forall|k: int| 0 <= k < dir.len() implies voffs[k] == spec_dir_voffs(e, dir, base)[k] by {
        if spec_is_big(dir[k]) {
            assert(voffs[k] as int == spec_assign_offsets(dir, base)[k]);
        } else {
            lemma_u32_roundtrip(e, voffs[k]);
            assert(spec_u32_from(e, spec_u32_bytes(e, voffs[k])) == voffs[k]);
            assert(spec_u32_from(e, dir[k].payload@ + spec_zeros(4 - dir[k].payload@.len()))
                == voffs[k]);
        }
    }
}

/// Emits one whole directory at the current buffer position: an alignment
/// pad when the position is odd, the 16-bit entry count, the records, the
/// next-directory word (zero for the last directory, otherwise the next
/// directory's start), and the out-of-line payloads.
#[verifier::rlimit(100)]
fn write_directory(
    out_buff: &mut Vec<u8>,
    position: u64,
    endian: Endian,
    dir: &Vec<PendingEntry>,
    last: bool,
) -> (r: Result<(u64, Ghost<(Seq<IFDEntry>, u32, int)>), TiffError>)
    requires
        old(out_buff)@.len() == position,
        8 <= position <= 0x80000000,
        spec_dir_wf(dir@),
    ensures
        match r {
            Ok(rr) => {
                &&& dir@.len() <= 0xFFFF
                &&& rr.1@.2 == spec_align2(position as int)
                &&& rr.0 as int == spec_dir_end(dir@, rr.1@.2)
                &&& rr.0 <= 0x80000000
                &&& final(out_buff)@.len() == rr.0
                &&& final(out_buff)@ == old(out_buff)@ + spec_pad(position as int)
                    + spec_dir_bytes(endian, dir@, rr.1@.2, rr.1@.1)
                &&& spec_is_prefix(old(out_buff)@, final(out_buff)@)
                &&& rr.1@.1 as int == (if last {
                    0int
                } else {
                    spec_align2(rr.0 as int)
                })
                &&& (dir@.len() >= 1 ==> {
                    &&& rr.1@.0.len() == dir@.len()
                    &&& crate::ifd::spec_parse_ifd(endian, final(out_buff)@, rr.1@.2) == Some(
                        (rr.1@.0, rr.1@.1),
                    )
                    &&& forall|k: int|
                        0 <= k < dir@.len() ==> spec_entry_written(
                            final(out_buff)@,
                            endian,
                            #[trigger] dir@[k],
                            rr.1@.0[k],
                        )
                })
            },
            Err(e) => {
                &&& e == TiffError::OutOfBounds
                &&& (dir@.len() > 0xFFFF || spec_dir_end(
                    dir@,
                    spec_align2(position as int),
                ) > 0x80000000)
            },
        },
{
    let ghost gdir = dir@;
    let n = dir.len();
    if n > 0xFFFF {
        return Err(TiffError::OutOfBounds);
    }
    let mut pos: u64 = position;
    if pos % 2 == 1 {
        out_buff.push(0);
        pos = pos + 1;
    }
    let ghost dir_start = pos as int;
    let ghost b0 = out_buff@;
    proof {
        assert(dir_start == spec_align2(position as int));
        assert(spec_is_prefix(old(out_buff)@, b0));
    }
    push_u16(out_buff, endian, n as u16);
    pos = pos + 2;
    let ghost b1 = out_buff@;
    proof {
        assert(b1 == b0 + spec_u16_bytes(endian, n as u16));
        assert(spec_is_prefix(b0, b1));
    }
    let rres = write_ifd_tag(out_buff, pos, endian, dir);
    let (end_cur, gv) = match rres {
        Ok(p) => p,
        Err(er) => {
            return Err(er);
        },
    };
    let ghost voffs = gv@;
    pos = pos + 12 * (n as u64);
    let ghost b2 = out_buff@;
    proof {
        assert(b2 == b1 + spec_records_bytes(endian, gdir, voffs));
        assert(spec_is_prefix(b1, b2));
        lemma_records_len(endian, gdir, voffs);
        assert(pos == b2.len());
    }
    let next_word: u32 = if last {
        0
    } else {
        let mut nx = end_cur;
        if nx % 2 == 1 {
            nx = nx + 1;
        }
        proof {
            assert(nx as int == spec_align2(end_cur as int));
        }
        nx as u32
    };
    push_u32(out_buff, endian, next_word);
    pos = pos + 4;
    let ghost b3 = out_buff@;
    let ghost ool_base = pos as int;
    proof {
        assert(b3 == b2 + spec_u32_bytes(endian, next_word));
        assert(spec_is_prefix(b2, b3));
        assert(ool_base == dir_start + 2 + 12 * gdir.len() + 4);
        assert(ool_base == b3.len());
        assert(end_cur as int == spec_payload_end(gdir, ool_base));
        assert(gdir.take(0) =~= Seq::<PendingEntry>::empty());
        assert(gdir.skip(0) =~= gdir);
        assert(out_buff@ =~= b3 + spec_payloads_bytes(gdir.take(0), ool_base));
    }
    let ghost mut raw: Seq<IFDEntry> = Seq::empty();
    let mut k: usize = 0;
    while k < n
        invariant
            n == gdir.len(),
            gdir == dir@,
            k <= n,
            spec_dir_wf(gdir),
            8 <= ool_base,
            ool_base == b3.len(),
            end_cur as int == spec_payload_end(gdir, ool_base),
            end_cur <= 0x80000000,
            pos == out_buff@.len(),
            pos as int == spec_payload_end(gdir.take(k as int), ool_base),
            spec_payload_end(gdir, ool_base) == spec_payload_end(gdir.skip(k as int), pos as int),
            out_buff@ == b3 + spec_payloads_bytes(gdir.take(k as int), ool_base),
        decreases n - k,
    {
        let ghost pre_take = gdir.take(k as int);
        let ghost pre_pos = pos as int;
        proof {
            assert(gdir.skip(k as int)[0] == gdir[k as int]);
            assert(gdir.skip(k as int).drop_first() =~= gdir.skip(k as int + 1));
            assert(pre_take.push(gdir[k as int]) =~= gdir.take(k as int + 1));
            lemma_payload_end_push(pre_take, gdir[k as int], ool_base);
            lemma_payloads_push(pre_take, gdir[k as int], ool_base);
        }
        let plen = dir[k].payload.len();
        if plen > 4 {
            proof {
                lemma_payload_end_lower(
                    gdir.skip(k as int + 1),
                    spec_align2(pre_pos) + gdir[k as int].payload@.len(),
                );
                assert(spec_payload_end(gdir.skip(k as int), pre_pos) == spec_payload_end(
                    gdir.skip(k as int + 1),
                    spec_align2(pre_pos) + gdir[k as int].payload@.len(),
                ));
                assert(spec_align2(pre_pos) + gdir[k as int].payload@.len() <= end_cur as int);
            }
            if pos % 2 == 1 {
                out_buff.push(0);
                pos = pos + 1;
            }
            let mut pc = crate::value::copy_bytes(&dir[k].payload);
            out_buff.append(&mut pc);
            pos = pos + (plen as u64);
            proof {
                assert(out_buff@ =~= b3 + spec_payloads_bytes(gdir.take(k as int + 1), ool_base));
            }
        } else {
            proof {
                assert(out_buff@ =~= b3 + spec_payloads_bytes(gdir.take(k as int + 1), ool_base));
            }
        }
        k = k + 1;
    }
    proof {
        assert(gdir.take(n as int) =~= gdir);
        assert(gdir.skip(n as int) =~= Seq::<PendingEntry>::empty());
        assert(pos as int == spec_payload_end(gdir, ool_base));
        assert(pos == end_cur);
        assert(out_buff@ == b3 + spec_payloads_bytes(gdir, ool_base));
        assert(b0 =~= old(out_buff)@ + spec_pad(position as int));
        raw = lemma_dir_emit_facts(
            endian,
            old(out_buff)@,
            b0,
            b1,
            b2,
            b3,
            out_buff@,
            gdir,
            voffs,
            position as int,
            dir_start,
            ool_base,
            next_word,
        );
        assert(spec_is_prefix(old(out_buff)@, out_buff@));
    }
    Ok((pos, Ghost((raw, next_word, dir_start))))
}

impl TIFFWriter {
    /// Performs the layout and emits the whole TIFF byte stream: the 8-byte
    /// header, then each directory (aligned to an even position) as its entry
    /// count, its records sorted by ascending tag, its next-directory word,
    /// and its out-of-line payloads, each placed at an even offset.  The
    /// produced bytes are exactly `spec_write_bytes` of the model, and they
    /// parse back to the model directory for directory — up to the first
    /// empty directory table, where the wire chain necessarily ends (a wire
    /// directory cannot hold zero entries).  Fails with an out-of-bounds
    /// error when a directory holds more entries than the 16-bit count word
    /// can carry or the layout would extend past 2^31.
    #[verifier::rlimit(100)]
    pub fn write(&self) -> (r: Result<Vec<u8>, TiffError>)
        requires
            self.wf(),
        ensures
            match r {
                Ok(bytes) => {
                    &&& spec_write_fits(self.spec_dirs())
                    &&& bytes@ == spec_write_bytes(self.spec_endian(), self.spec_dirs())
                    &&& bytes@.len() == spec_dirs_end(self.spec_dirs(), 8)
                    &&& crate::reader::spec_parse_header(bytes@) == Some(
                        (self.spec_endian(), 8u32),
                    )
                    &&& spec_written_matches_upto(
                        bytes@,
                        self.spec_endian(),
                        self.spec_dirs(),
                        spec_first_empty(self.spec_dirs()),
                    )
                    &&& (spec_all_nonempty(self.spec_dirs()) ==> spec_written_matches(
                        bytes@,
                        self.spec_endian(),
                        self.spec_dirs(),
                    ))
                },
                Err(e) => {
                    &&& e == TiffError::OutOfBounds
                    &&& !spec_write_fits(self.spec_dirs())
                },
            },
    {
        let e = self.endian;
        let ghost dirs = self.spec_dirs();
        let mut buf: Vec<u8> = Vec::new();
        emit_header(&mut buf, e);
        let mut pos: u64 = 8;
        let ghost mut starts: Seq<int> = Seq::empty();
        let ghost mut raws: Seq<Seq<IFDEntry>> = Seq::empty();
        let ghost mut nexts: Seq<u32> = Seq::empty();
        let total = self.ifds.len();
        let mut di: usize = 0;
        let ghost m = spec_first_empty(dirs);
        proof {
            assert(dirs.take(0) =~= Seq::<Seq<PendingEntry>>::empty());
            assert(dirs.skip(0) =~= dirs);
            assert(spec_write_bytes(e, dirs) == buf@ + spec_dirs_bytes(e, dirs, 8));
            lemma_first_empty(dirs);
            lemma_emit_facts_init(e, dirs, m, buf@, 8);
        }
        while di < total
            invariant
                self.wf(),
                e == self.spec_endian(),
                dirs == self.spec_dirs(),
                total == dirs.len(),
                di <= total,
                pos == buf@.len(),
                8 <= pos <= 0x80000000,
                pos as int == spec_dirs_end(dirs.take(di as int), 8),
                spec_dirs_end(dirs, 8) == spec_dirs_end(dirs.skip(di as int), pos as int),
                spec_write_bytes(e, dirs) == buf@ + spec_dirs_bytes(
                    e,
                    dirs.skip(di as int),
                    pos as int,
                ),
                forall|j: int| 0 <= j < di ==> (#[trigger] dirs[j]).len() <= 0xFFFF,
                crate::reader::spec_parse_header(buf@) == Some((e, 8u32)),
                m == spec_first_empty(dirs),
                spec_emit_facts(e, dirs, di as int, m, buf@, pos as int, starts, raws, nexts),
            decreases total - di,
        {
            let ghost bh = buf@;
            let ghost pos_head = pos as int;
            let dir = &self.ifds[di];
            let ghost gdir = dir@;
            proof {
                assert(gdir == dirs[di as int]);
                assert(spec_dir_wf(gdir));
                assert(dirs.skip(di as int)[0] == dirs[di as int]);
                assert(dirs.skip(di as int).drop_first() =~= dirs.skip(di as int + 1));
                assert(dirs.take(di as int).push(dirs[di as int]) =~= dirs.take(di as int + 1));
            }
            let rres = write_directory(&mut buf, pos, e, dir, di + 1 == total);
            let (newpos, g) = match rres {
                Ok(p) => p,
                Err(er) => {
                    proof {
                        if gdir.len() > 0xFFFF {
                            assert(!spec_write_fits(dirs));
                        } else {
                            lemma_dirs_end_lower(
                                dirs.skip(di as int + 1),
                                spec_dir_end(gdir, spec_align2(pos_head)),
                            );
                            assert(spec_dirs_end(dirs, 8) > 0x80000000);
                            assert(!spec_write_fits(dirs));
                        }
                    }
                    return Err(er);
                },
            };
            let ghost raw = g@.0;
            let ghost next_word = g@.1;
            let ghost dir_start = g@.2;
            pos = newpos;
            proof {
                lemma_header_prefix(bh, buf@);
                assert(spec_dir_end(gdir, dir_start) == pos as int);
                lemma_dirs_end_push(dirs.take(di as int), dirs[di as int], 8);
                assert(dir_start == spec_align2(pos_head));
                assert(spec_dirs_end(dirs.take(di as int + 1), 8) == pos as int);
                assert(buf@ =~= bh + spec_pad(pos_head) + spec_dir_bytes(
                    e,
                    gdir,
                    dir_start,
                    next_word,
                ));
                lemma_write_step_bytes(
                    e,
                    dirs,
                    di as int,
                    pos_head,
                    bh,
                    buf@,
                    dir_start,
                    next_word,
                    pos as int,
                );
                assert(spec_dirs_end(dirs, 8) == spec_dirs_end(
                    dirs.skip(di as int + 1),
                    pos as int,
                ));
                lemma_write_loop_ghost(
                    e,
                    dirs,
                    di as int,
                    m,
                    bh,
                    buf@,
                    starts,
                    raws,
                    nexts,
                    raw,
                    next_word,
                    dir_start,
                    pos_head,
                    pos as int,
                );
                starts = starts.push(dir_start);
                raws = raws.push(raw);
                nexts = nexts.push(next_word);
            }
            di = di + 1;
        }
        proof {
            assert(dirs.take(total as int) =~= dirs);
            assert(dirs.skip(total as int) =~= Seq::<Seq<PendingEntry>>::empty());
            assert(pos as int == spec_dirs_end(dirs, 8));
            assert(spec_write_fits(dirs));
            assert(spec_dirs_bytes(e, dirs.skip(total as int), pos as int) =~= Seq::<u8>::empty());
            assert(buf@ + spec_dirs_bytes(e, dirs.skip(total as int), pos as int) =~= buf@);
            assert(buf@ == spec_write_bytes(e, dirs));
            lemma_first_empty(dirs);
            lemma_write_finish(e, dirs, m, buf@, pos as int, starts, raws, nexts);
            if spec_all_nonempty(dirs) {
                assert(m == total as int);
                assert(spec_written_matches(buf@, e, dirs));
            }
        }
        Ok(buf)
    }
}


impl TIFFWriter {
    /// Encodes a typed field and stores it in the selected directory under
    /// the field's tag.  A field that rejects its value yields an encoding
    /// error and leaves the writer unchanged.
    pub fn set_field<F: Field>(&mut self, f: &F) -> (r: Result<(), TiffError>)
        requires
            old(self).wf(),
        ensures
            final(self).wf(),
            final(self).spec_endian() == old(self).spec_endian(),
            final(self).spec_current() == old(self).spec_current(),
            match F::spec_encode(f@) {
                None => r == Err::<(), TiffError>(TiffError::EncodingError) && *final(self)
                    == *old(self),
                Some(v) => match r {
                    Ok(()) => {
                        &&& spec_encodable(v)
                        &&& spec_count(v) <= u32::MAX
                        &&& final(self).spec_dirs().len() == old(self).spec_dirs().len()
                        &&& forall|d: int|
                            0 <= d < old(self).spec_dirs().len() && d != old(self).spec_current()
                                ==> #[trigger] final(self).spec_dirs()[d] == old(
                                self,
                            ).spec_dirs()[d]
                        &&& match spec_find_pending(
                            final(self).spec_dirs()[old(self).spec_current()],
                            spec_tag_value(F::spec_tag()),
                        ) {
                            Some(pe) => {
                                &&& pe.tag == spec_tag_from(spec_tag_value(F::spec_tag()))
                                &&& pe.value_type == spec_type_code(v)
                                &&& pe.count == spec_count(v)
                                &&& pe.payload@ == spec_payload(old(self).spec_endian(), v)
                            },
                            None => false,
                        }
                        &&& forall|c: u16|
                            c != spec_tag_value(F::spec_tag()) ==> #[trigger] spec_find_pending(
                                final(self).spec_dirs()[old(self).spec_current()],
                                c,
                            ) == spec_find_pending(
                                old(self).spec_dirs()[old(self).spec_current()],
                                c,
                            )
                    },
                    Err(e) => {
                        &&& *final(self) == *old(self)
                        &&& (e == TiffError::EncodingError || e == TiffError::OutOfBounds)
                        &&& (e == TiffError::EncodingError ==> !spec_encodable(v))
                        &&& (e == TiffError::OutOfBounds ==> spec_count(v) > u32::MAX)
                    },
                },
            },
    {
        let value = match f.encode_to_value() {
            Some(val) => val,
            None => {
                return Err(TiffError::EncodingError);
            },
        };
        self.set_directory_field_for_tag(F::tag(), value)
    }
}

} // verus!
