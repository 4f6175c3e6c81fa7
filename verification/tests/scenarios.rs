//! Concrete scenarios: header validation, the inline rule, multi-directory
//! chains, rationals, auto-typing, unknown tags and type codes, ASCII
//! handling, and the error conditions.

use tiff::endian::Endian;
use tiff::ifd::IFDIterator;
use tiff::tag::DateTime;
use tiff::tag::GrayResponseCurve;
use tiff::tag::ImageWidth;
use tiff::tag::Software;
use tiff::tag::StripOffsets;
use tiff::tag::Tag;
use tiff::tag::XResolution;
use tiff::value::Rational;
use tiff::value::TIFFValue;
use tiff::TiffError;
use tiff::TIFFReader;
use tiff::TIFFWriter;

#[test]
fn little_endian_header_without_directories_is_rejected() {
    let bytes: Vec<u8> = vec![0x49, 0x49, 0x2A, 0x00, 0x08, 0x00, 0x00, 0x00, 0x00, 0x00];
    let r = TIFFReader::new(bytes);
    assert!(matches!(r, Err(TiffError::NoDirectory)));
}

#[test]
fn minimal_valid_file_reads_and_rewrites_identically() {
    let bytes: Vec<u8> = vec![
        0x4D, 0x4D, 0x00, 0x2A, 0x00, 0x00, 0x00, 0x08, 0x00, 0x01, 0x01, 0x00, 0x00, 0x03,
        0x00, 0x00, 0x00, 0x01, 0x00, 0xAA, 0x00, 0x00, 0x00, 0x00, 0x00, 0x00,
    ];
    let read = TIFFReader::new(bytes.clone()).unwrap();
    assert_eq!(read.endianness(), Endian::Big);
    assert_eq!(read.directories_count(), 1);
    let width = read.get_directory_field::<ImageWidth>().expect("image width");
    assert_eq!(width.0, 0x00AA);
    assert_eq!(width.0, 170);

    let mut w = TIFFWriter::new(Endian::Big);
    w.set_field(&ImageWidth(170)).unwrap();
    let rewritten = w.write().unwrap();
    assert_eq!(rewritten, bytes);
}

#[test]
fn short_field_with_two_elements_is_inlined() {
    // Four payload bytes fit the value slot exactly: nothing out of line.
    let mut w = TIFFWriter::new(Endian::Little);
    w.set_field(&GrayResponseCurve(vec![1, 2])).unwrap();
    let bytes = w.write().unwrap();
    assert_eq!(bytes.len(), 26);

    let iter_bytes = bytes.clone();
    let mut iter = IFDIterator::new(&iter_bytes, 8, Endian::Little);
    let dir = iter.next().unwrap();
    let entry = dir.get_entry_from_tag(Tag::GrayResponseCurve).unwrap();
    // The slot holds the payload itself: 01 00 02 00 in little endian.
    assert_eq!(entry.value_offset, 0x00020001);

    let read = TIFFReader::new(bytes).unwrap();
    let curve = read.get_directory_field::<GrayResponseCurve>().unwrap();
    assert_eq!(curve.0, vec![1, 2]);
}

#[test]
fn short_field_with_three_elements_goes_out_of_line() {
    // Six payload bytes exceed the slot: the slot holds an offset past the
    // directory end (and past the header).
    let mut w = TIFFWriter::new(Endian::Little);
    w.set_field(&GrayResponseCurve(vec![1, 2, 3])).unwrap();
    let bytes = w.write().unwrap();
    assert_eq!(bytes.len(), 32);

    let iter_bytes = bytes.clone();
    let mut iter = IFDIterator::new(&iter_bytes, 8, Endian::Little);
    let dir = iter.next().unwrap();
    let entry = dir.get_entry_from_tag(Tag::GrayResponseCurve).unwrap();
    assert!(entry.value_offset >= 10);
    assert_eq!(entry.value_offset, 26);

    let read = TIFFReader::new(bytes).unwrap();
    let curve = read.get_directory_field::<GrayResponseCurve>().unwrap();
    assert_eq!(curve.0, vec![1, 2, 3]);
}

#[test]
fn multi_directory_chain_round_trips() {
    let mut w = TIFFWriter::new(Endian::Little);
    w.set_field(&ImageWidth(100)).unwrap();
    w.insert_directory_at_index(1);
    w.set_current_directory_index(1);
    w.set_field(&ImageWidth(200)).unwrap();
    w.insert_directory_at_index(2);
    w.set_current_directory_index(2);
    w.set_field(&ImageWidth(300)).unwrap();
    let bytes = w.write().unwrap();

    let mut read = TIFFReader::new(bytes).unwrap();
    assert_eq!(read.directories_count(), 3);
    let mut widths: Vec<u32> = Vec::new();
    for i in 0..3 {
        read.set_directory_index(i);
        widths.push(read.get_directory_field::<ImageWidth>().unwrap().0);
    }
    assert_eq!(widths, vec![100, 200, 300]);
}

#[test]
fn rational_field_round_trips_out_of_line() {
    let mut w = TIFFWriter::new(Endian::Little);
    w.set_field(&XResolution(Rational { num: 96, denom: 1 })).unwrap();
    let bytes = w.write().unwrap();
    // Header (8) + count (2) + one record (12) + next word (4) + payload (8).
    assert_eq!(bytes.len(), 34);

    let iter_bytes = bytes.clone();
    let mut iter = IFDIterator::new(&iter_bytes, 8, Endian::Little);
    let dir = iter.next().unwrap();
    let entry = dir.get_entry_from_tag(Tag::XResolution).unwrap();
    assert_eq!(entry.value_offset, 26);

    let read = TIFFReader::new(bytes).unwrap();
    let res = read.get_directory_field::<XResolution>().unwrap();
    assert_eq!(res.0, Rational { num: 96, denom: 1 });
}

#[test]
fn strip_offsets_auto_type_short_or_long() {
    let mut w = TIFFWriter::new(Endian::Little);
    w.set_field(&StripOffsets(vec![8])).unwrap();
    let bytes = w.write().unwrap();
    let iter_bytes = bytes.clone();
    let mut iter = IFDIterator::new(&iter_bytes, 8, Endian::Little);
    let entry = iter.next().unwrap().get_entry_from_tag(Tag::StripOffsets).unwrap();
    assert_eq!(entry.value_type, 3);
    let read = TIFFReader::new(bytes).unwrap();
    assert_eq!(read.get_directory_field::<StripOffsets>().unwrap().0, vec![8]);

    let mut w2 = TIFFWriter::new(Endian::Little);
    w2.set_field(&StripOffsets(vec![100000])).unwrap();
    let bytes2 = w2.write().unwrap();
    let iter_bytes2 = bytes2.clone();
    let mut iter2 = IFDIterator::new(&iter_bytes2, 8, Endian::Little);
    let entry2 = iter2.next().unwrap().get_entry_from_tag(Tag::StripOffsets).unwrap();
    assert_eq!(entry2.value_type, 4);
    let read2 = TIFFReader::new(bytes2).unwrap();
    assert_eq!(read2.get_directory_field::<StripOffsets>().unwrap().0, vec![100000]);
}

#[test]
fn switching_endianness_keeps_decoded_values() {
    let mut values: Vec<(Endian, u32, Vec<u16>)> = Vec::new();
    for endian in [Endian::Little, Endian::Big] {
        let mut w = TIFFWriter::new(endian);
        w.set_field(&ImageWidth(70000)).unwrap();
        w.set_field(&GrayResponseCurve(vec![10, 20, 30])).unwrap();
        let bytes = w.write().unwrap();
        let read = TIFFReader::new(bytes).unwrap();
        values.push((
            read.endianness(),
            read.get_directory_field::<ImageWidth>().unwrap().0,
            read.get_directory_field::<GrayResponseCurve>().unwrap().0,
        ));
    }
    assert_eq!(values[0].0, Endian::Little);
    assert_eq!(values[1].0, Endian::Big);
    assert_eq!(values[0].1, values[1].1);
    assert_eq!(values[0].2, values[1].2);
    assert_eq!(values[0].1, 70000);
    assert_eq!(values[0].2, vec![10, 20, 30]);
}

#[test]
fn unknown_tag_numbers_survive_a_write_read_cycle() {
    let mut w = TIFFWriter::new(Endian::Little);
    w.set_directory_field_for_tag(Tag::Unknown(0x9999), TIFFValue::Long(vec![7])).unwrap();
    let bytes = w.write().unwrap();

    let read = TIFFReader::new(bytes).unwrap();
    let tags = read.get_directory_tags();
    assert_eq!(tags.len(), 1);
    assert_eq!(tags[0], Tag::Unknown(0x9999));
    match read.get_directory_value_from_tag(Tag::Unknown(0x9999)) {
        Some(TIFFValue::Long(v)) => assert_eq!(v, vec![7]),
        _ => panic!("expected a Long value under the unknown tag"),
    }
}

#[test]
fn unknown_type_codes_decode_as_undefined_with_raw_bytes() {
    // A little-endian stream whose single entry carries type code 99 with
    // two inline payload bytes.
    let bytes: Vec<u8> = vec![
        0x49, 0x49, 0x2A, 0x00, 0x08, 0x00, 0x00, 0x00, 0x01, 0x00, 0x99, 0x99, 0x63, 0x00,
        0x02, 0x00, 0x00, 0x00, 0xDE, 0xAD, 0x00, 0x00, 0x00, 0x00, 0x00, 0x00,
    ];
    let read = TIFFReader::new(bytes).unwrap();
    match read.get_directory_value_from_tag(Tag::Unknown(0x9999)) {
        Some(TIFFValue::Undefined(raw)) => assert_eq!(raw, vec![0xDE, 0xAD]),
        _ => panic!("expected an Undefined value"),
    }
}

#[test]
fn ascii_values_split_on_nul_and_pack_back() {
    let payload: Vec<u8> = vec![0x61, 0x62, 0x00, 0x63, 0x64, 0x00];
    let decoded = TIFFValue::decode_payload(Endian::Little, 2, &payload).unwrap();
    match &decoded {
        TIFFValue::Ascii(strings) => {
            assert_eq!(strings.len(), 2);
            assert_eq!(strings[0], "ab");
            assert_eq!(strings[1], "cd");
        },
        _ => panic!("expected an Ascii value"),
    }
    let (count, packed) = decoded.encode_payload(Endian::Little).unwrap();
    assert_eq!(count, 6);
    assert_eq!(packed, payload);
}

#[test]
fn ascii_payload_with_high_byte_is_rejected() {
    let payload: Vec<u8> = vec![0xFF];
    let r = TIFFValue::decode_payload(Endian::Little, 2, &payload);
    assert!(matches!(r, Err(TiffError::AsciiFormat)));
}

#[test]
fn non_ascii_string_is_rejected_with_an_encoding_error() {
    let mut w = TIFFWriter::new(Endian::Little);
    let r = w.set_field(&Software(String::from("caf\u{e9}")));
    assert!(matches!(r, Err(TiffError::EncodingError)));
}

#[test]
fn header_errors_are_reported_precisely() {
    assert!(matches!(
        TIFFReader::new(vec![0x49, 0x49, 0x2A]),
        Err(TiffError::UnexpectedEof)
    ));
    assert!(matches!(
        TIFFReader::new(vec![0x4B, 0x4B, 0x2A, 0x00, 0x08, 0x00, 0x00, 0x00]),
        Err(TiffError::InvalidEndianMagic)
    ));
    assert!(matches!(
        TIFFReader::new(vec![0x49, 0x49, 0x2B, 0x00, 0x08, 0x00, 0x00, 0x00]),
        Err(TiffError::InvalidMagicNumber)
    ));
}

#[test]
fn datetime_round_trips_through_its_wire_form() {
    let dt = DateTime { year: 2023, month: 1, day: 15, hour: 12, minute: 30, second: 45 };
    let mut w = TIFFWriter::new(Endian::Little);
    w.set_field(&dt).unwrap();
    let bytes = w.write().unwrap();
    let read = TIFFReader::new(bytes).unwrap();
    match read.get_directory_value_from_tag(Tag::DateTime) {
        Some(TIFFValue::Ascii(strings)) => {
            assert_eq!(strings.len(), 1);
            assert_eq!(strings[0], "2023:01:15 12:30:45");
        },
        _ => panic!("expected an Ascii value"),
    }
    let back = read.get_directory_field::<DateTime>().expect("date and time");
    assert_eq!(back, dt);
}

#[test]
fn datetime_rejects_out_of_range_fields() {
    let dt = DateTime { year: 2023, month: 13, day: 15, hour: 12, minute: 30, second: 45 };
    assert!(!dt.is_valid());
    let mut w = TIFFWriter::new(Endian::Little);
    assert!(matches!(w.set_field(&dt), Err(TiffError::EncodingError)));
}

#[test]
fn strip_data_out_of_range_reports_missing_payload() {
    // StripOffsets points far outside the stream: the value itself still
    // reads back (it is inline), but extracting the range fails.
    let mut w = TIFFWriter::new(Endian::Little);
    w.set_field(&StripOffsets(vec![40000])).unwrap();
    let bytes = w.write().unwrap();
    let read = TIFFReader::new(bytes).unwrap();
    let r = read.raw_bytes(40000, 4);
    assert!(matches!(r, Err(TiffError::UnexpectedEof)));
}

#[test]
fn endian_primitives_encode_exactly() {
    assert_eq!(Endian::Big.short_adjusted(0x1122), [0x11, 0x22]);
    assert_eq!(Endian::Little.short_adjusted(0x1122), [0x22, 0x11]);
    assert_eq!(Endian::Big.long_adjusted(0x11223344), [0x11, 0x22, 0x33, 0x44]);
    assert_eq!(Endian::Little.long_adjusted(0x11223344), [0x44, 0x33, 0x22, 0x11]);
    assert_eq!(
        Endian::Big.longlong_adjusted(0x1122334455667788),
        [0x11, 0x22, 0x33, 0x44, 0x55, 0x66, 0x77, 0x88]
    );
    assert_eq!(
        Endian::Little.longlong_adjusted(0x1122334455667788),
        [0x88, 0x77, 0x66, 0x55, 0x44, 0x33, 0x22, 0x11]
    );
    let le: Endian = tiff::LE;
    let be: Endian = tiff::BE;
    assert_eq!(le, Endian::Little);
    assert_eq!(be, Endian::Big);
}

#[test]
fn signed_and_float_values_round_trip_bitwise() {
    let v = TIFFValue::SRational(vec![Rational { num: -3, denom: 7 }]);
    let (count, payload) = v.encode_payload(Endian::Big).unwrap();
    assert_eq!(count, 1);
    assert_eq!(payload.len(), 8);
    let back = TIFFValue::decode_payload(Endian::Big, 10, &payload).unwrap();
    match back {
        TIFFValue::SRational(el) => {
            assert_eq!(el.len(), 1);
            assert_eq!(el[0], Rational { num: -3, denom: 7 });
        },
        _ => panic!("expected a signed rational"),
    }

    let bits = 1.5f32.to_bits();
    let f = TIFFValue::Float(vec![bits]);
    let (fcount, fpayload) = f.encode_payload(Endian::Little).unwrap();
    assert_eq!(fcount, 1);
    let fback = TIFFValue::decode_payload(Endian::Little, 11, &fpayload).unwrap();
    match fback {
        TIFFValue::Float(el) => {
            assert_eq!(el.len(), 1);
            assert_eq!(f32::from_bits(el[0]), 1.5f32);
        },
        _ => panic!("expected a float"),
    }
}

#[test]
fn odd_payload_is_padded_before_the_next_offset() {
    // A five-byte out-of-line payload would end at an odd position; the next
    // directory must begin on an even offset, preceded by a pad byte.
    let mut w = TIFFWriter::new(Endian::Little);
    w.set_directory_field_for_tag(Tag::Unknown(0x9000), TIFFValue::Byte(vec![1, 2, 3, 4, 5]))
        .unwrap();
    w.insert_directory_at_index(1);
    w.set_current_directory_index(1);
    w.set_field(&ImageWidth(9)).unwrap();
    let bytes = w.write().unwrap();
    // First directory region: 8..26, payload at 26..31, pad at 31, second
    // directory at 32.
    assert_eq!(bytes.len() % 2, 0);
    let mut read = TIFFReader::new(bytes).unwrap();
    assert_eq!(read.directories_count(), 2);
    read.set_directory_index(1);
    assert_eq!(read.get_directory_field::<ImageWidth>().unwrap().0, 9);
    read.set_directory_index(0);
    match read.get_directory_value_from_tag(Tag::Unknown(0x9000)) {
        Some(TIFFValue::Byte(b)) => assert_eq!(b, vec![1, 2, 3, 4, 5]),
        _ => panic!("expected a Byte value"),
    }
}

#[test]
fn transcoding_preserves_every_field() {
    // Read a stream, copy every tag's value verbatim into a writer, write,
    // and read the result back: the logical model survives unchanged.
    let mut w0 = TIFFWriter::new(Endian::Big);
    w0.set_field(&ImageWidth(174)).unwrap();
    w0.set_field(&GrayResponseCurve(vec![5, 6, 7])).unwrap();
    w0.set_field(&XResolution(Rational { num: 300, denom: 2 })).unwrap();
    w0.set_field(&Software(String::from("scanner suite"))).unwrap();
    let first_bytes = w0.write().unwrap();

    let read = TIFFReader::new(first_bytes).unwrap();
    let mut writer = TIFFWriter::new(read.endianness());
    let tags = read.get_directory_tags();
    assert_eq!(tags.len(), 4);
    for tag in tags {
        let value = read.get_directory_value_from_tag(tag).unwrap();
        writer.set_directory_field_for_tag(tag, value).unwrap();
    }
    let rewritten = writer.write().unwrap();

    let back = TIFFReader::new(rewritten).unwrap();
    assert_eq!(back.get_directory_field::<ImageWidth>().unwrap().0, 174);
    assert_eq!(back.get_directory_field::<GrayResponseCurve>().unwrap().0, vec![5, 6, 7]);
    assert_eq!(
        back.get_directory_field::<XResolution>().unwrap().0,
        Rational { num: 300, denom: 2 }
    );
    match back.get_directory_value_from_tag(Tag::Software) {
        Some(TIFFValue::Ascii(strings)) => assert_eq!(strings[0], "scanner suite"),
        _ => panic!("expected an Ascii value"),
    }
}

#[test]
fn written_entries_are_in_ascending_tag_order() {
    // Fields set in arbitrary order come out sorted by tag number.
    let mut w = TIFFWriter::new(Endian::Little);
    w.set_field(&XResolution(Rational { num: 96, denom: 1 })).unwrap();
    w.set_field(&ImageWidth(640)).unwrap();
    w.set_directory_field_for_tag(Tag::Unknown(0x9999), TIFFValue::Byte(vec![1])).unwrap();
    w.set_field(&GrayResponseCurve(vec![1])).unwrap();
    let bytes = w.write().unwrap();

    // The records sit at bytes 10..58; each starts with its 16-bit tag.
    let mut codes: Vec<u16> = Vec::new();
    for k in 0..4usize {
        let p = 10 + 12 * k;
        codes.push(bytes[p] as u16 | ((bytes[p + 1] as u16) << 8));
    }
    assert_eq!(codes, vec![0x0100, 0x011A, 0x0123, 0x9999]);
    for k in 0..3usize {
        assert!(codes[k] < codes[k + 1]);
    }
}

#[test]
fn empty_directory_truncates_the_chain() {
    // A wire directory cannot hold zero entries, so the chain the writer
    // emits ends just before the first empty directory table.
    let mut w = TIFFWriter::new(Endian::Little);
    w.set_field(&ImageWidth(100)).unwrap();
    w.insert_directory_at_index(1);
    w.insert_directory_at_index(2);
    w.set_current_directory_index(2);
    w.set_field(&ImageWidth(300)).unwrap();
    let bytes = w.write().unwrap();

    let read = TIFFReader::new(bytes).unwrap();
    assert_eq!(read.directories_count(), 1);
    assert_eq!(read.get_directory_field::<ImageWidth>().unwrap().0, 100);
}
