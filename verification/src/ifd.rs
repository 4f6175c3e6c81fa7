//! Image file directories: the 12-byte wire entry record, the per-directory
//! table keyed by tag, and the iterator that walks the on-disk directory
//! chain.

use vstd::prelude::*;

use crate::endian::Endian;
use crate::endian::EndianReader;
use crate::endian::spec_u16_from;
use crate::endian::spec_u32_from;
use crate::error::TiffError;
use crate::tag::Tag;
use crate::tag::spec_tag_from;
use crate::tag::spec_tag_value;

verus! {

/// An `IFDEntry` is one 12-byte record of an image file directory: the tag,
/// the wire type code, the element count, and the value-or-offset slot
/// decoded as a 32-bit word under the file's byte order.
#[derive(Debug, Clone, Copy, PartialEq, Eq, Structural)]
pub struct IFDEntry {
    pub tag: Tag,
    pub value_type: u16,
    pub count: u32,
    pub value_offset: u32,
}

/// One image file directory: a table of entries keyed by tag.  The table
/// holds at most one entry per tag; when the wire holds duplicates, the last
/// one wins.
#[derive(Debug)]
pub struct IFD {
    entries: Vec<IFDEntry>,
}

/// The first entry with the given tag in a sequence of entries.
pub open spec fn spec_find_entry(entries: Seq<IFDEntry>, tag: Tag) -> Option<IFDEntry>
    decreases entries.len(),
{
    if entries.len() == 0 {
        None
    } else if entries[0].tag == tag {
        Some(entries[0])
    } else {
        spec_find_entry(entries.drop_first(), tag)
    }
}

/// Entries have pairwise distinct tags.
pub open spec fn spec_entries_unique(entries: Seq<IFDEntry>) -> bool {
    forall|i: int, j: int|
        0 <= i < j < entries.len() ==> (#[trigger] entries[i]).tag != (#[trigger] entries[j]).tag
}

impl IFD {
    /// The entries of this directory.
    pub closed spec fn spec_entries(&self) -> Seq<IFDEntry> {
        self.entries@
    }

    /// A directory is well-formed when no tag appears twice.
    pub open spec fn wf(&self) -> bool {
        spec_entries_unique(self.spec_entries())
    }

    /// An empty directory.
    pub fn empty() -> (r: IFD)
        ensures
            r.spec_entries() == Seq::<IFDEntry>::empty(),
            r.wf(),
    {
        IFD { entries: Vec::new() }
    }

    /// Stores an entry under its tag, replacing any entry already stored
    /// under the same tag (last writer wins).
    pub fn put_entry(&mut self, entry: IFDEntry)
        requires
            old(self).wf(),
        ensures
            final(self).wf(),
            spec_find_entry(final(self).spec_entries(), entry.tag) == Some(entry),
            forall|t: Tag|
                t != entry.tag ==> #[trigger] spec_find_entry(final(self).spec_entries(), t)
                    == spec_find_entry(old(self).spec_entries(), t),
    {
        let mut i: usize = 0;
        let n = self.entries.len();
        while i < n
            invariant
                n == self.entries.len(),
                i <= n,
                self.entries@ == old(self).spec_entries(),
                old(self).wf(),
                forall|k: int| 0 <= k < i ==> (#[trigger] self.entries@[k]).tag != entry.tag,
            decreases n - i,
        {
            if self.entries[i].tag == entry.tag {
                self.entries[i] = entry;
                proof {
                    assert(self.entries@ =~= old(self).spec_entries().update(i as int, entry));
                    lemma_find_entry_update(old(self).spec_entries(), i as int, entry);
                }
                return ;
            }
            i = i + 1;
        }
        self.entries.push(entry);
        proof {
            assert(self.entries@ =~= old(self).spec_entries().push(entry));
            lemma_find_entry_push(old(self).spec_entries(), entry);
        }
    }

    /// Looks up the entry stored under a tag.
    pub fn get_entry_from_tag(&self, tag: Tag) -> (r: Option<IFDEntry>)
        ensures
            r == spec_find_entry(self.spec_entries(), tag),
    {
        let mut i: usize = 0;
        let n = self.entries.len();
        proof {
            assert(self.spec_entries().skip(0) =~= self.spec_entries());
        }
        while i < n
            invariant
                n == self.entries.len(),
                i <= n,
                spec_find_entry(self.spec_entries(), tag) == spec_find_entry(
                    self.spec_entries().skip(i as int),
                    tag,
                ),
            decreases n - i,
        {
            proof {
                assert(self.spec_entries().skip(i as int)[0] == self.spec_entries()[i as int]);
            }
            if self.entries[i].tag == tag {
                return Some(self.entries[i]);
            }
            proof {
                assert(self.spec_entries().skip(i as int).drop_first() =~= self.spec_entries().skip(
                    i as int + 1,
                ));
            }
            i = i + 1;
        }
        proof {
            assert(self.spec_entries().skip(n as int) =~= Seq::<IFDEntry>::empty());
        }
        None
    }

    /// The tags present in this directory, in storage order.
    pub fn all_tags(&self) -> (r: Vec<Tag>)
        ensures
            r@.len() == self.spec_entries().len(),
            forall|i: int|
                0 <= i < r@.len() ==> #[trigger] r@[i] == self.spec_entries()[i].tag,
    {
        let mut tags: Vec<Tag> = Vec::new();
        let mut i: usize = 0;
        let n = self.entries.len();
        while i < n
            invariant
                n == self.entries.len(),
                i <= n,
                tags@.len() == i as int,
                forall|k: int| 0 <= k < i ==> #[trigger] tags@[k] == self.spec_entries()[k].tag,
            decreases n - i,
        {
            tags.push(self.entries[i].tag);
            i = i + 1;
        }
        tags
    }

    /// The number of entries in this directory.
    pub fn entry_count(&self) -> (r: usize)
        ensures
            r == self.spec_entries().len(),
    {
        self.entries.len()
    }
}

/// Replacing the entry at the position where a tag already sits keeps every
/// other lookup unchanged and makes the tag resolve to the new entry.
proof fn lemma_find_entry_update(entries: Seq<IFDEntry>, i: int, entry: IFDEntry)
    requires
        0 <= i < entries.len(),
        entries[i].tag == entry.tag,
        forall|k: int| 0 <= k < i ==> (#[trigger] entries[k]).tag != entry.tag,
    ensures
        spec_find_entry(entries.update(i, entry), entry.tag) == Some(entry),
        forall|t: Tag|
            t != entry.tag ==> #[trigger] spec_find_entry(entries.update(i, entry), t)
                == spec_find_entry(entries, t),
        spec_entries_unique(entries) ==> spec_entries_unique(entries.update(i, entry)),
    decreases entries.len(),
{
    let updated = entries.update(i, entry);
    if i == 0 {
        assert(updated[0] == entry);
        assert forall|t: Tag|
            t != entry.tag implies #[trigger] spec_find_entry(updated, t) == spec_find_entry(
            entries,
            t,
        ) by {
            assert(updated.drop_first() =~= entries.drop_first());
            assert(updated[0].tag == entries[0].tag);
        }
    } else {
        assert(updated.drop_first() =~= entries.drop_first().update(i - 1, entry));
        lemma_find_entry_update(entries.drop_first(), i - 1, entry);
        assert(updated[0] == entries[0]);
        assert(updated[0].tag != entry.tag);
        assert(spec_find_entry(updated, entry.tag) == spec_find_entry(
            updated.drop_first(),
            entry.tag,
        ));
        assert forall|t: Tag|
            t != entry.tag implies #[trigger] spec_find_entry(updated, t) == spec_find_entry(
            entries,
            t,
        ) by {
            if updated[0].tag == t {
            } else {
                assert(spec_find_entry(updated.drop_first(), t) == spec_find_entry(
                    entries.drop_first(),
                    t,
                ));
            }
        }
    }
    if spec_entries_unique(entries) {
        assert forall|p: int, q: int| 0 <= p < q < updated.len() implies (#[trigger] updated[p]).tag
            != (#[trigger] updated[q]).tag by {
            assert(entries[p].tag == updated[p].tag || p == i);
            assert(entries[q].tag == updated[q].tag || q == i);
            assert(entries[p].tag != entries[q].tag);
            if p == i {
                assert(updated[p].tag == entries[i].tag);
            }
            if q == i {
                assert(updated[q].tag == entries[i].tag);
            }
        }
    }
}

/// Appending an entry whose tag is absent makes the tag resolve to it and
/// keeps every other lookup unchanged.
proof fn lemma_find_entry_push(entries: Seq<IFDEntry>, entry: IFDEntry)
    requires
        forall|k: int| 0 <= k < entries.len() ==> (#[trigger] entries[k]).tag != entry.tag,
    ensures
        spec_find_entry(entries.push(entry), entry.tag) == Some(entry),
        forall|t: Tag|
            t != entry.tag ==> #[trigger] spec_find_entry(entries.push(entry), t)
                == spec_find_entry(entries, t),
        spec_entries_unique(entries) ==> spec_entries_unique(entries.push(entry)),
    decreases entries.len(),
{
    let pushed = entries.push(entry);
    if entries.len() == 0 {
        assert(pushed[0] == entry);
        assert forall|t: Tag|
            t != entry.tag implies #[trigger] spec_find_entry(pushed, t) == spec_find_entry(
            entries,
            t,
        ) by {
            assert(pushed.drop_first() =~= entries);
        }
    } else {
        assert(pushed.drop_first() =~= entries.drop_first().push(entry));
        lemma_find_entry_push(entries.drop_first(), entry);
        assert(pushed[0] == entries[0]);
        assert(pushed[0].tag != entry.tag);
        assert(spec_find_entry(pushed, entry.tag) == spec_find_entry(
            pushed.drop_first(),
            entry.tag,
        ));
        assert forall|t: Tag|
            t != entry.tag implies #[trigger] spec_find_entry(pushed, t) == spec_find_entry(
            entries,
            t,
        ) by {
            if pushed[0].tag == t {
            } else {
                assert(spec_find_entry(pushed.drop_first(), t) == spec_find_entry(
                    entries.drop_first(),
                    t,
                ));
            }
        }
    }
    if spec_entries_unique(entries) {
        assert forall|p: int, q: int| 0 <= p < q < pushed.len() implies (#[trigger] pushed[p]).tag
            != (#[trigger] pushed[q]).tag by {
            if q < entries.len() {
                assert(entries[p].tag != entries[q].tag);
            } else {
                assert(pushed[q] == entry);
                assert(pushed[p].tag == entries[p].tag);
            }
        }
    }
}


// ---------------------------------------------------------------------------
// Parsing the on-disk directory chain.
// ---------------------------------------------------------------------------

/// The entry stored under a tag when the wire holds duplicates: the last one
/// wins.
pub open spec fn spec_find_last(entries: Seq<IFDEntry>, tag: Tag) -> Option<IFDEntry>
    decreases entries.len(),
{
    if entries.len() == 0 {
        None
    } else if entries.last().tag == tag {
        Some(entries.last())
    } else {
        spec_find_last(entries.drop_last(), tag)
    }
}

/// Appending an entry makes its tag resolve to it and keeps every other
/// last-wins lookup unchanged.
pub proof fn lemma_find_last_push(entries: Seq<IFDEntry>, entry: IFDEntry)
    ensures
        spec_find_last(entries.push(entry), entry.tag) == Some(entry),
        forall|t: Tag|
            t != entry.tag ==> #[trigger] spec_find_last(entries.push(entry), t)
                == spec_find_last(entries, t),
{
    assert(entries.push(entry).drop_last() =~= entries);
    assert(entries.push(entry).last() == entry);
}

/// The 12-byte entry record at an absolute offset, under the given byte
/// order: tag, type code, count, and the value-or-offset word.
pub open spec fn spec_parse_entry(e: Endian, data: Seq<u8>, off: int) -> IFDEntry {
    IFDEntry {
        tag: spec_tag_from(spec_u16_from(e, data.subrange(off, off + 2))),
        value_type: spec_u16_from(e, data.subrange(off + 2, off + 4)),
        count: spec_u32_from(e, data.subrange(off + 4, off + 8)),
        value_offset: spec_u32_from(e, data.subrange(off + 8, off + 12)),
    }
}

/// One directory at an absolute offset: the 16-bit entry count, that many
/// 12-byte records, and the 32-bit next-directory offset.  `None` when the
/// count is zero or the directory runs past the end of the stream.
pub open spec fn spec_parse_ifd(e: Endian, data: Seq<u8>, off: int) -> Option<
    (Seq<IFDEntry>, u32),
> {
    if 0 <= off && off + 2 <= data.len() {
        let n = spec_u16_from(e, data.subrange(off, off + 2)) as int;
        if n >= 1 && off + 2 + 12 * n + 4 <= data.len() {
            Some(
                (
                    Seq::new(n as nat, |i: int| spec_parse_entry(e, data, off + 2 + 12 * i)),
                    spec_u32_from(
                        e,
                        data.subrange(off + 2 + 12 * n, off + 2 + 12 * n + 4),
                    ),
                ),
            )
        } else {
            None
        }
    } else {
        None
    }
}

/// The directory chain from an absolute offset.  The walk continues only
/// while the next offset strictly increases and stays within the stream,
/// which bounds the traversal of any malformed chain.
pub open spec fn spec_parse_chain(e: Endian, data: Seq<u8>, off: int) -> Seq<Seq<IFDEntry>>
    decreases data.len() - off,
{
    if 0 <= off <= data.len() {
        match spec_parse_ifd(e, data, off) {
            Some(pr) => {
                if off < pr.1 <= data.len() {
                    seq![pr.0] + spec_parse_chain(e, data, pr.1 as int)
                } else {
                    seq![pr.0]
                }
            },
            None => Seq::empty(),
        }
    } else {
        Seq::empty()
    }
}

/// A forward iterator over the image file directories of a byte stream,
/// starting at a given absolute offset.
pub struct IFDIterator<'a> {
    data: &'a Vec<u8>,
    endian: Endian,
    next_offset: usize,
    done: bool,
}

impl<'a> IFDIterator<'a> {
    /// The bytes this iterator walks over.
    pub closed spec fn spec_data(&self) -> Seq<u8> {
        self.data@
    }

    /// The byte order applied to every word read.
    pub closed spec fn spec_endian(&self) -> Endian {
        self.endian
    }

    /// The offset the next directory will be read from.
    pub closed spec fn spec_offset(&self) -> int {
        self.next_offset as int
    }

    /// Whether the walk has ended.
    pub closed spec fn spec_done(&self) -> bool {
        self.done
    }

    /// While the walk has not ended, the cursor stays within the stream.
    pub open spec fn wf(&self) -> bool {
        !self.spec_done() ==> 0 <= self.spec_offset() <= self.spec_data().len()
    }

    /// Positions an iterator at the first directory offset.
    pub fn new(data: &'a Vec<u8>, first_ifd_offset: usize, endian: Endian) -> (r: IFDIterator<'a>)
        ensures
            r.spec_data() == data@,
            r.spec_endian() == endian,
            r.wf(),
            r.spec_done() ==> spec_parse_ifd(endian, data@, first_ifd_offset as int) is None,
            !r.spec_done() ==> r.spec_offset() == first_ifd_offset as int,
    {
        let done = first_ifd_offset > data.len();
        IFDIterator { data, endian, next_offset: first_ifd_offset, done }
    }

    /// Reads the directory at the cursor and advances to the next one.
    /// Yields `None` when the walk has ended: at a zero or truncated
    /// directory, and after a next-offset that does not strictly increase or
    /// leaves the stream (the cycle guard).
    pub fn next(&mut self) -> (r: Option<IFD>)
        requires
            old(self).wf(),
        ensures
            final(self).spec_data() == old(self).spec_data(),
            final(self).spec_endian() == old(self).spec_endian(),
            final(self).wf(),
            old(self).spec_done() ==> r is None && *final(self) == *old(self),
            !old(self).spec_done() ==> match spec_parse_ifd(
                old(self).spec_endian(),
                old(self).spec_data(),
                old(self).spec_offset(),
            ) {
                Some(pr) => {
                    &&& r matches Some(ifd) && ifd.wf() && forall|t: Tag|
                        #[trigger] spec_find_entry(ifd.spec_entries(), t) == spec_find_last(
                            pr.0,
                            t,
                        )
                    &&& final(self).spec_done() == !(old(self).spec_offset() < pr.1
                        <= old(self).spec_data().len())
                    &&& !final(self).spec_done() ==> final(self).spec_offset() == pr.1 as int
                },
                None => r is None && final(self).spec_done(),
            },
    {
        if self.done {
            return None;
        }
        let off = self.next_offset;
        let ghost e = self.endian;
        let ghost d = self.data@;
        let mut rd = EndianReader::new(self.data, self.endian);
        rd.seek(off);
        let entry_count: u16 = match rd.read_short::<u16>() {
            Ok(v) => v,
            Err(_) => {
                self.done = true;
                return None;
            },
        };
        if entry_count < 1 {
            self.done = true;
            return None;
        }
        let n: u64 = entry_count as u64;
        let data_len: u64 = self.data.len() as u64;
        if 2 + 12 * n + 4 > data_len - (off as u64) {
            self.done = true;
            proof {
                assert(spec_parse_ifd(e, d, off as int) is None);
            }
            return None;
        }
        proof {
            assert(off + 2 + 12 * (n as int) + 4 <= d.len());
            assert(spec_parse_ifd(e, d, off as int) is Some);
        }
        let ghost pr = spec_parse_ifd(e, d, off as int).unwrap();
        let ghost raw = pr.0;
        let mut ifd = IFD::empty();
        let mut i: usize = 0;
        proof {
            assert(raw.take(0) =~= Seq::<IFDEntry>::empty());
        }
        while i < entry_count as usize
            invariant
                0 <= i <= entry_count as int,
                n == entry_count as u64,
                off + 2 + 12 * (n as int) + 4 <= d.len(),
                rd.spec_data() == d,
                rd.spec_endian() == e,
                rd.spec_pos() == off + 2 + 12 * (i as int),
                spec_parse_ifd(e, d, off as int) == Some(pr),
                raw == pr.0,
                raw.len() == n as int,
                forall|k: int| 0 <= k < raw.len() ==> #[trigger] raw[k] == spec_parse_entry(
                    e,
                    d,
                    off + 2 + 12 * k,
                ),
                ifd.wf(),
                forall|t: Tag|
                    #[trigger] spec_find_entry(ifd.spec_entries(), t) == spec_find_last(
                        raw.take(i as int),
                        t,
                    ),
            decreases entry_count as int - i,
        {
            proof {
                assert(12 * (i as int) + 12 <= 12 * (n as int));
            }
            let tag_raw: u16 = match rd.read_short::<u16>() {
                Ok(v) => v,
                Err(_) => {
                    proof {
                        assert(false);
                    }
                    return None;
                },
            };
            let value_type: u16 = match rd.read_short::<u16>() {
                Ok(v) => v,
                Err(_) => {
                    proof {
                        assert(false);
                    }
                    return None;
                },
            };
            let count: u32 = match rd.read_long::<u32>() {
                Ok(v) => v,
                Err(_) => {
                    proof {
                        assert(false);
                    }
                    return None;
                },
            };
            let value_offset: u32 = match rd.read_long::<u32>() {
                Ok(v) => v,
                Err(_) => {
                    proof {
                        assert(false);
                    }
                    return None;
                },
            };
            let entry = IFDEntry {
                tag: crate::tag::Tag::from_u16(tag_raw),
                value_type,
                count,
                value_offset,
            };
            proof {
                assert(entry == spec_parse_entry(e, d, off + 2 + 12 * (i as int)));
                assert(entry == raw[i as int]);
            }
            ifd.put_entry(entry);
            proof {
                lemma_find_last_push(raw.take(i as int), entry);
                assert(raw.take(i as int).push(entry) =~= raw.take(i as int + 1));
            }
            i = i + 1;
        }
        proof {
            assert(raw.take(n as int) =~= raw);
        }
        let next: u32 = match rd.read_long::<u32>() {
            Ok(v) => v,
            Err(_) => {
                proof {
                    assert(false);
                }
                return None;
            },
        };
        proof {
            assert(next == pr.1);
        }
        if (next as u64) > (off as u64) && (next as u64) <= data_len {
            self.next_offset = next as usize;
        } else {
            self.done = true;
        }
        Some(ifd)
    }
}

} // verus!
