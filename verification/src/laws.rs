//! The laws of the codec: what holds of every value, every written stream,
//! and every read-back, stated and proved over the models that the reader's
//! and writer's contracts use.

use vstd::prelude::*;

use crate::endian::Endian;
use crate::ifd::IFDEntry;
use crate::ifd::spec_find_last;
use crate::ifd::spec_parse_chain;
use crate::tag::lemma_tag_from_value;
use crate::tag::spec_tag_from;
use crate::tag::spec_tag_value;
use crate::reader::TIFFReader;
use crate::reader::spec_parse_header;
use crate::value::ValueView;
use crate::value::lemma_decoded_encodable;
use crate::value::lemma_value_roundtrip;
use crate::value::spec_decode_value;
use crate::value::spec_encodable;
use crate::value::spec_entry_payload;
use crate::value::spec_payload;
use crate::value::spec_type_code;
use crate::writer::PendingEntry;
use crate::writer::TIFFWriter;
use crate::writer::spec_all_nonempty;
use crate::writer::spec_dir_wf;
use crate::writer::spec_entry_written;
use crate::writer::spec_find_pending;
use crate::writer::spec_is_big;
use crate::writer::spec_first_empty;
use crate::writer::spec_written_matches;
use crate::writer::spec_written_matches_upto;

verus! {

/// Decoding a value and writing it back recovers the value, under any byte
/// order: a model that came out of the reader survives a write-and-reread
/// cycle unchanged, and switching the writer's endianness does not change
/// any decoded value.
pub proof fn lemma_reread_value(e1: Endian, e2: Endian, t: u16, b: Seq<u8>)
    requires
        spec_decode_value(e1, t, b) is Some,
    ensures
        ({
            let v = spec_decode_value(e1, t, b).unwrap();
            &&& spec_encodable(v)
            &&& spec_decode_value(e2, spec_type_code(v), spec_payload(e2, v)) == Some(v)
        }),
{
    lemma_decoded_encodable(e1, t, b);
    lemma_value_roundtrip(e2, spec_decode_value(e1, t, b).unwrap());
}

/// Unknown type codes decode as `Undefined` with the raw bytes preserved.
pub proof fn lemma_unknown_type_undefined(e: Endian, t: u16, b: Seq<u8>)
    requires
        !(1 <= t <= 12),
    ensures
        spec_decode_value(e, t, b) == Some(ValueView::Undefined(b)),
{
}

/// The position of the entry a tag number resolves to in a pending table.
proof fn lemma_find_pending_witness(dir: Seq<PendingEntry>, code: u16) -> (j: int)
    requires
        spec_find_pending(dir, code) is Some,
    ensures
        0 <= j < dir.len(),
        dir[j] == spec_find_pending(dir, code).unwrap(),
        spec_tag_value(dir[j].tag) == code,
    decreases dir.len(),
{
    if spec_tag_value(dir[0].tag) == code {
        0
    } else {
        let j = lemma_find_pending_witness(dir.drop_first(), code);
        assert(dir.drop_first()[j] == dir[j + 1]);
        j + 1
    }
}

/// In a directory with pairwise distinct tags, the last-wins lookup finds
/// exactly the entry that carries the tag.
proof fn lemma_find_last_at(entries: Seq<IFDEntry>, j: int)
    requires
        0 <= j < entries.len(),
        forall|p: int, q: int|
            0 <= p < q < entries.len() ==> (#[trigger] entries[p]).tag != (
            #[trigger] entries[q]).tag,
    ensures
        spec_find_last(entries, entries[j].tag) == Some(entries[j]),
    decreases entries.len(),
{
    if j == entries.len() - 1 {
        assert(entries.last() == entries[j]);
    } else {
        assert(entries.last() == entries[entries.len() - 1]);
        assert(entries.last().tag != entries[j].tag);
        assert(entries.drop_last()[j] == entries[j]);
        lemma_find_last_at(entries.drop_last(), j);
    }
}

/// The parsed entries of one written directory carry pairwise distinct tags,
/// in strictly ascending tag-number order.
pub proof fn lemma_written_ascending(
    dirs: Seq<Seq<PendingEntry>>,
    bytes: Seq<u8>,
    e: Endian,
    i: int,
    m: int,
)
    requires
        forall|d: int| 0 <= d < dirs.len() ==> spec_dir_wf(#[trigger] dirs[d]),
        spec_written_matches_upto(bytes, e, dirs, m),
        0 <= i < m <= dirs.len(),
    ensures
        ({
            let chain = spec_parse_chain(e, bytes, 8);
            forall|j: int, k: int|
                0 <= j < k < chain[i].len() ==> spec_tag_value((#[trigger] chain[i][j]).tag)
                    < spec_tag_value((#[trigger] chain[i][k]).tag)
        }),
{
    let chain = spec_parse_chain(e, bytes, 8);
    assert forall|j: int, k: int|
        0 <= j < k < chain[i].len() implies spec_tag_value((#[trigger] chain[i][j]).tag)
        < spec_tag_value((#[trigger] chain[i][k]).tag) by {
        assert(spec_entry_written(bytes, e, dirs[i][j], chain[i][j]));
        assert(spec_entry_written(bytes, e, dirs[i][k], chain[i][k]));
        lemma_tag_from_value(spec_tag_value(dirs[i][j].tag));
        lemma_tag_from_value(spec_tag_value(dirs[i][k].tag));
        assert(spec_tag_value(dirs[i][j].tag) < spec_tag_value(dirs[i][k].tag));
    }
}

/// Every out-of-line offset a write produces is at least 8, even, and points
/// at a payload lying wholly within the produced stream.
pub proof fn lemma_written_offsets(
    dirs: Seq<Seq<PendingEntry>>,
    bytes: Seq<u8>,
    e: Endian,
    m: int,
)
    requires
        spec_written_matches_upto(bytes, e, dirs, m),
        0 <= m <= dirs.len(),
    ensures
        ({
            let chain = spec_parse_chain(e, bytes, 8);
            forall|i: int, k: int|
                0 <= i < m && 0 <= k < dirs[i].len() && spec_is_big(dirs[i][k]) ==> {
                    let re = #[trigger] chain[i][k];
                    &&& re.value_offset >= 8
                    &&& re.value_offset % 2 == 0
                    &&& re.value_offset + dirs[i][k].payload@.len() <= bytes.len()
                }
        }),
{
    let chain = spec_parse_chain(e, bytes, 8);
    assert forall|i: int, k: int|
        0 <= i < m && 0 <= k < dirs[i].len() && spec_is_big(dirs[i][k]) implies {
        let re = #[trigger] chain[i][k];
        &&& re.value_offset >= 8
        &&& re.value_offset % 2 == 0
        &&& re.value_offset + dirs[i][k].payload@.len() <= bytes.len()
    } by {
        assert(spec_entry_written(bytes, e, dirs[i][k], chain[i][k]));
    }
}

/// A payload of at most four bytes is recoverable from the entry record
/// alone, whatever stream the record is read against: it was placed in the
/// value slot, not out of line.
pub proof fn lemma_written_inline(
    pe: PendingEntry,
    re: IFDEntry,
    data: Seq<u8>,
    other: Seq<u8>,
    e: Endian,
)
    requires
        spec_entry_written(data, e, pe, re),
        pe.payload@.len() <= 4,
        pe.payload@.len() == pe.count * crate::value::spec_element_width(pe.value_type),
    ensures
        spec_entry_payload(other, e, re.value_type, re.count, re.value_offset) == Some(
            pe.payload@,
        ),
        crate::endian::spec_u32_bytes(e, re.value_offset) == pe.payload@
            + crate::writer::spec_zeros(4 - pe.payload@.len()),
{
}

/// Two writers holding the same byte order and the same directory tables
/// emit byte-identical streams: the written stream is a function of the
/// model alone.
pub proof fn lemma_write_deterministic(w1: &TIFFWriter, w2: &TIFFWriter)
    requires
        w1.spec_endian() == w2.spec_endian(),
        w1.spec_dirs() == w2.spec_dirs(),
    ensures
        crate::writer::spec_write_bytes(w1.spec_endian(), w1.spec_dirs())
            == crate::writer::spec_write_bytes(w2.spec_endian(), w2.spec_dirs()),
{
}

/// Every written entry keeps its tag number: a written stream parses back to
/// records whose tags are numerically those that were stored, so unknown tag
/// numbers survive a write-and-read cycle.
pub proof fn lemma_written_tag_preserved(pe: PendingEntry, re: IFDEntry, data: Seq<u8>, e: Endian)
    requires
        spec_entry_written(data, e, pe, re),
    ensures
        spec_tag_value(re.tag) == spec_tag_value(pe.tag),
{
    lemma_tag_from_value(spec_tag_value(pe.tag));
}

/// Writing a model and reading the produced bytes back recovers every stored
/// value: for each directory and each stored tag number, the wire directory
/// resolves the tag to an entry whose payload decodes to the stored value,
/// under the writer's byte order.
pub proof fn lemma_write_read_model(
    dirs: Seq<Seq<PendingEntry>>,
    bytes: Seq<u8>,
    e: Endian,
    i: int,
    m: int,
    code: u16,
    vv: ValueView,
)
    requires
        forall|d: int| 0 <= d < dirs.len() ==> spec_dir_wf(#[trigger] dirs[d]),
        spec_written_matches_upto(bytes, e, dirs, m),
        0 <= i < m <= dirs.len(),
        spec_find_pending(dirs[i], code) is Some,
        ({
            let pe = spec_find_pending(dirs[i], code).unwrap();
            pe.payload@ == spec_payload(e, vv) && pe.value_type == spec_type_code(vv)
        }),
        spec_encodable(vv),
    ensures
        ({
            let chain = spec_parse_chain(e, bytes, 8);
            let found = spec_find_last(chain[i], spec_tag_from(code));
            &&& found is Some
            &&& {
                let re = found.unwrap();
                &&& spec_entry_payload(bytes, e, re.value_type, re.count, re.value_offset)
                    == Some(spec_payload(e, vv))
                &&& spec_decode_value(e, re.value_type, spec_payload(e, vv)) == Some(vv)
            }
        }),
{
    let chain = spec_parse_chain(e, bytes, 8);
    let pe = spec_find_pending(dirs[i], code).unwrap();
    let j = lemma_find_pending_witness(dirs[i], code);
    assert(spec_entry_written(bytes, e, dirs[i][j], chain[i][j]));
    let re = chain[i][j];
    lemma_tag_from_value(code);
    assert(re.tag == spec_tag_from(code));
    assert forall|p: int, q: int|
        0 <= p < q < chain[i].len() implies (#[trigger] chain[i][p]).tag != (
    #[trigger] chain[i][q]).tag by {
        assert(spec_entry_written(bytes, e, dirs[i][p], chain[i][p]));
        assert(spec_entry_written(bytes, e, dirs[i][q], chain[i][q]));
        lemma_tag_from_value(spec_tag_value(dirs[i][p].tag));
        lemma_tag_from_value(spec_tag_value(dirs[i][q].tag));
        assert(spec_tag_value(dirs[i][p].tag) < spec_tag_value(dirs[i][q].tag));
    }
    lemma_find_last_at(chain[i], j);
    assert(spec_find_last(chain[i], re.tag) == Some(re));
    assert(re.value_type == spec_type_code(vv));
    assert(spec_entry_payload(bytes, e, re.value_type, re.count, re.value_offset) == Some(
        pe.payload@,
    ));
    lemma_value_roundtrip(e, vv);
}


/// The whole pipeline: a model accumulated in a writer, written to bytes and
/// opened with the reader, hands every stored value back.  For each
/// directory before the first empty table (all of them, when none is empty)
/// and each stored tag number, the reader's lookup in that directory yields
/// exactly the value whose serialisation the writer stored.
pub proof fn lemma_write_then_read_value(
    w: &TIFFWriter,
    rd: &TIFFReader,
    i: int,
    code: u16,
    vv: ValueView,
)
    requires
        w.wf(),
        spec_written_matches_upto(
            rd.spec_data(),
            w.spec_endian(),
            w.spec_dirs(),
            spec_first_empty(w.spec_dirs()),
        ),
        rd.wf(),
        rd.spec_endian() == w.spec_endian(),
        spec_parse_header(rd.spec_data()) == Some((w.spec_endian(), 8u32)),
        rd.spec_current() == i,
        0 <= i < spec_first_empty(w.spec_dirs()),
        spec_find_pending(w.spec_dirs()[i], code) is Some,
        ({
            let pe = spec_find_pending(w.spec_dirs()[i], code).unwrap();
            pe.payload@ == spec_payload(w.spec_endian(), vv) && pe.value_type == spec_type_code(
                vv,
            )
        }),
        spec_encodable(vv),
    ensures
        rd.spec_value_for_tag(spec_tag_from(code)) == Some(vv),
{
    let e = w.spec_endian();
    let data = rd.spec_data();
    let chain = spec_parse_chain(e, data, 8);
    crate::writer::lemma_first_empty(w.spec_dirs());
    lemma_write_read_model(w.spec_dirs(), data, e, i, spec_first_empty(w.spec_dirs()), code, vv);
    let re = spec_find_last(chain[i], spec_tag_from(code)).unwrap();
    assert(crate::reader::spec_dirs_match(rd.spec_ifds(), chain));
    assert(crate::ifd::spec_find_entry(rd.spec_ifds()[i].spec_entries(), spec_tag_from(code))
        == spec_find_last(chain[i], spec_tag_from(code)));
    assert(crate::value::spec_entry_payload(data, e, re.value_type, re.count, re.value_offset)
        == Some(spec_payload(e, vv)));
    assert(spec_decode_value(e, re.value_type, spec_payload(e, vv)) == Some(vv));
}

} // verus!
