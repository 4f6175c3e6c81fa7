//! The test suite of the codec: endian primitives, sample streams read back
//! field by field, the directory iterator, and the baseline image facade.

use tiff::endian::Endian;
use tiff::endian::EndianReader;
use tiff::ifd::IFDIterator;
use tiff::tag::BitsPerSample;
use tiff::tag::ImageLength;
use tiff::tag::ImageWidth;
use tiff::tag::NewSubfileType;
use tiff::tag::PhotometricInterpretation;
use tiff::tag::PlanarConfiguration;
use tiff::tag::Predictor;
use tiff::tag::ResolutionUnit;
use tiff::tag::RowsPerStrip;
use tiff::tag::SamplesPerPixel;
use tiff::tag::StripByteCounts;
use tiff::tag::StripOffsets;
use tiff::tag::Tag;
use tiff::tag::XResolution;
use tiff::tag::YResolution;
use tiff::value::Rational;
use tiff::Image;
use tiff::TIFFReader;
use tiff::TIFFWriter;
use tiff::TIFF;

/// A stream with the fields of the big-endian sample image.
fn build_sample_be() -> Vec<u8> {
    let mut w = TIFFWriter::new(Endian::Big);
    w.set_field(&ImageWidth(174)).unwrap();
    w.set_field(&PhotometricInterpretation::RGB).unwrap();
    w.set_field(&StripOffsets(vec![8])).unwrap();
    w.set_field(&SamplesPerPixel(4)).unwrap();
    w.set_field(&RowsPerStrip(38)).unwrap();
    w.set_field(&StripByteCounts(vec![6391])).unwrap();
    w.set_field(&BitsPerSample(vec![8, 8, 8, 8])).unwrap();
    w.write().unwrap()
}

/// A stream with the fields of the little-endian sample image.
fn build_sample_le() -> Vec<u8> {
    let mut w = TIFFWriter::new(Endian::Little);
    w.set_field(&ImageWidth(436)).unwrap();
    w.set_field(&PhotometricInterpretation::RGB).unwrap();
    w.set_field(&SamplesPerPixel(3)).unwrap();
    w.set_field(&RowsPerStrip(9)).unwrap();
    w.set_field(&BitsPerSample(vec![8, 8, 8])).unwrap();
    w.set_field(&XResolution(Rational { num: 96, denom: 1 })).unwrap();
    w.set_field(&YResolution(Rational { num: 96, denom: 1 })).unwrap();
    w.set_field(&ResolutionUnit::Inch).unwrap();
    w.set_field(&Predictor::NoPrediction).unwrap();
    w.set_field(&PlanarConfiguration::Chunky).unwrap();
    w.set_field(&NewSubfileType(0)).unwrap();
    w.write().unwrap()
}

/// A stream with the fields of the chunky YCbCr sample image.
fn build_sample_other() -> Vec<u8> {
    let mut w = TIFFWriter::new(Endian::Big);
    w.set_field(&ImageWidth(250)).unwrap();
    w.set_field(&ImageLength(325)).unwrap();
    w.set_field(&PhotometricInterpretation::YCbCr).unwrap();
    w.set_field(&SamplesPerPixel(3)).unwrap();
    w.set_field(&RowsPerStrip(10)).unwrap();
    w.set_field(&BitsPerSample(vec![8, 8, 8])).unwrap();
    w.set_field(&PlanarConfiguration::Chunky).unwrap();
    w.write().unwrap()
}

#[test]
fn test_reader() {
    let bytes: Vec<u8> = vec![0x11, 0x22, 0x33, 0x44, 0x55, 0x66];
    {
        let mut be_reader = EndianReader::new(&bytes, Endian::Big);
        assert_eq!(0x1122u16, be_reader.read_short().unwrap());
        assert_eq!(0x33445566u32, be_reader.read_long().unwrap());
    }
    {
        let mut le_reader = EndianReader::new(&bytes, Endian::Little);
        assert_eq!(0x2211u16, le_reader.read_short().unwrap());
        assert_eq!(0x66554433u32, le_reader.read_long().unwrap());
    }
}

#[test]
fn test_iterator() {
    // A directory placed at offset 0x1900 whose single entry is a Long
    // ImageWidth stored out of line at byte 11403264.
    let mut bytes: Vec<u8> = vec![0u8; 0x1900];
    bytes.extend_from_slice(&[0x00, 0x01]);
    bytes.extend_from_slice(&[0x01, 0x00]);
    bytes.extend_from_slice(&[0x00, 0x04]);
    bytes.extend_from_slice(&[0x00, 0x00, 0x00, 0x01]);
    bytes.extend_from_slice(&[0x00, 0xAE, 0x00, 0x00]);
    bytes.extend_from_slice(&[0x00, 0x00, 0x00, 0x00]);
    let mut iter = IFDIterator::new(&bytes, 0x1900, Endian::Big);
    let first_dict = iter.next().unwrap();
    let entry = first_dict.get_entry_from_tag(Tag::ImageWidth).unwrap();
    assert_eq!(entry.value_offset, 11403264);
}

#[test]
fn test_sample_be() {
    let read = TIFFReader::new(build_sample_be()).unwrap();
    assert_eq!(read.endianness(), Endian::Big);

    let image_width = read.get_directory_field::<ImageWidth>().expect("image width");
    assert_eq!(image_width.0, 174);

    let photometric_interpretation = read
        .get_directory_field::<PhotometricInterpretation>()
        .expect("photometric interpretation");
    assert_eq!(photometric_interpretation, PhotometricInterpretation::RGB);

    let strip_offsets = read.get_directory_field::<StripOffsets>().expect("strip offsets");
    assert_eq!(strip_offsets.0.len(), 1);
    assert_eq!(strip_offsets.0[0], 8);

    let samples_per_pixel = read.get_directory_field::<SamplesPerPixel>().expect(
        "samples per pixel",
    );
    assert_eq!(samples_per_pixel.0, 4);

    let rows_per_strip = read.get_directory_field::<RowsPerStrip>().expect("rows per strip");
    assert_eq!(rows_per_strip.0, 38);

    let strip_byte_counts = read.get_directory_field::<StripByteCounts>().expect(
        "strip byte counts",
    );
    assert_eq!(strip_byte_counts.0.len(), 1);
    assert_eq!(strip_byte_counts.0[0], 6391);

    let bits_per_sample = read.get_directory_field::<BitsPerSample>().expect("bits per sample");
    assert_eq!(bits_per_sample.0, vec![8, 8, 8, 8]);
}

#[test]
fn test_sample_le() {
    let read = TIFFReader::new(build_sample_le()).unwrap();
    assert_eq!(read.endianness(), Endian::Little);

    let image_width = read.get_directory_field::<ImageWidth>().expect("image width");
    assert_eq!(image_width.0, 436);

    let photometric_interpretation = read
        .get_directory_field::<PhotometricInterpretation>()
        .expect("photometric interpretation");
    assert_eq!(photometric_interpretation, PhotometricInterpretation::RGB);

    let samples_per_pixel = read.get_directory_field::<SamplesPerPixel>().expect(
        "samples per pixel",
    );
    assert_eq!(samples_per_pixel.0, 3);

    let rows_per_strip = read.get_directory_field::<RowsPerStrip>().expect("rows per strip");
    assert_eq!(rows_per_strip.0, 9);

    let bits_per_sample = read.get_directory_field::<BitsPerSample>().expect("bits per sample");
    assert_eq!(bits_per_sample.0, vec![8, 8, 8]);

    let x_resolution = read.get_directory_field::<XResolution>().expect("x resolution");
    assert_eq!(x_resolution.0, Rational { num: 96, denom: 1 });

    let y_resolution = read.get_directory_field::<YResolution>().expect("y resolution");
    assert_eq!(y_resolution.0, Rational { num: 96, denom: 1 });

    let resolution_unit = read.get_directory_field::<ResolutionUnit>().expect("resolution unit");
    assert_eq!(resolution_unit, ResolutionUnit::Inch);

    let predictor = read.get_directory_field::<Predictor>().expect("predictor");
    assert_eq!(predictor, Predictor::NoPrediction);

    let planar = read.get_directory_field::<PlanarConfiguration>().expect(
        "planar configuration",
    );
    assert_eq!(planar, PlanarConfiguration::Chunky);

    let subfile = read.get_directory_field::<NewSubfileType>().expect("new subfile type");
    assert_eq!(false, subfile.is_reduced_image());
}

#[test]
fn test_sample_other() {
    let read = TIFFReader::new(build_sample_other()).unwrap();
    assert_eq!(read.endianness(), Endian::Big);

    let image_width = read.get_directory_field::<ImageWidth>().expect("image width");
    assert_eq!(image_width.0, 250);

    let image_length = read.get_directory_field::<ImageLength>().expect("image length");
    assert_eq!(image_length.0, 325);

    let photometric_interpretation = read
        .get_directory_field::<PhotometricInterpretation>()
        .expect("photometric interpretation");
    assert_eq!(photometric_interpretation, PhotometricInterpretation::YCbCr);

    let samples_per_pixel = read.get_directory_field::<SamplesPerPixel>().expect(
        "samples per pixel",
    );
    assert_eq!(samples_per_pixel.0, 3);

    let rows_per_strip = read.get_directory_field::<RowsPerStrip>().expect("rows per strip");
    assert_eq!(rows_per_strip.0, 10);

    let bits_per_sample = read.get_directory_field::<BitsPerSample>().expect("bits per sample");
    assert_eq!(bits_per_sample.0, vec![8, 8, 8]);

    let planar = read.get_directory_field::<PlanarConfiguration>().expect(
        "planar configuration",
    );
    assert_eq!(planar, PlanarConfiguration::Chunky);
}

#[test]
fn tiff_test_sample_be() {
    let read = TIFF::new(build_sample_be()).unwrap();
    assert_eq!(read.endianness(), Endian::Big);

    let image_width = read.get_tiff_value::<ImageWidth>().expect("image width");
    assert_eq!(image_width.0, 174);

    let photometric_interpretation = read
        .get_tiff_value::<PhotometricInterpretation>()
        .expect("photometric interpretation");
    assert_eq!(photometric_interpretation, PhotometricInterpretation::RGB);

    let strip_offsets = read.get_tiff_value::<StripOffsets>().expect("strip offsets");
    assert_eq!(strip_offsets.0.len(), 1);
    assert_eq!(strip_offsets.0[0], 8);

    let samples_per_pixel = read.get_tiff_value::<SamplesPerPixel>().expect("samples per pixel");
    assert_eq!(samples_per_pixel.0, 4);

    let rows_per_strip = read.get_tiff_value::<RowsPerStrip>().expect("rows per strip");
    assert_eq!(rows_per_strip.0, 38);

    let strip_byte_counts = read.get_tiff_value::<StripByteCounts>().expect("strip byte counts");
    assert_eq!(strip_byte_counts.0.len(), 1);
    assert_eq!(strip_byte_counts.0[0], 6391);

    let bits_per_sample = read.get_tiff_value::<BitsPerSample>().expect("bits per sample");
    assert_eq!(bits_per_sample.0, vec![8, 8, 8, 8]);
}

#[test]
fn tiff_test_sample_le() {
    let read = TIFF::new(build_sample_le()).unwrap();
    assert_eq!(read.endianness(), Endian::Little);

    let image_width = read.get_tiff_value::<ImageWidth>().expect("image width");
    assert_eq!(image_width.0, 436);

    let photometric_interpretation = read
        .get_tiff_value::<PhotometricInterpretation>()
        .expect("photometric interpretation");
    assert_eq!(photometric_interpretation, PhotometricInterpretation::RGB);

    let samples_per_pixel = read.get_tiff_value::<SamplesPerPixel>().expect("samples per pixel");
    assert_eq!(samples_per_pixel.0, 3);

    let rows_per_strip = read.get_tiff_value::<RowsPerStrip>().expect("rows per strip");
    assert_eq!(rows_per_strip.0, 9);

    let bits_per_sample = read.get_tiff_value::<BitsPerSample>().expect("bits per sample");
    assert_eq!(bits_per_sample.0, vec![8, 8, 8]);

    let x_resolution = read.get_tiff_value::<XResolution>().expect("x resolution");
    assert_eq!(x_resolution.0, Rational { num: 96, denom: 1 });

    let y_resolution = read.get_tiff_value::<YResolution>().expect("y resolution");
    assert_eq!(y_resolution.0, Rational { num: 96, denom: 1 });

    let resolution_unit = read.get_tiff_value::<ResolutionUnit>().expect("resolution unit");
    assert_eq!(resolution_unit, ResolutionUnit::Inch);

    let predictor = read.get_tiff_value::<Predictor>().expect("predictor");
    assert_eq!(predictor, Predictor::NoPrediction);

    let planar = read.get_tiff_value::<PlanarConfiguration>().expect("planar configuration");
    assert_eq!(planar, PlanarConfiguration::Chunky);

    let subfile = read.get_tiff_value::<NewSubfileType>().expect("new subfile type");
    assert_eq!(false, subfile.is_reduced_image());
}

/// A stream whose strip placement fields name a byte range inside the
/// stream itself.
fn build_striped() -> Vec<u8> {
    let mut w = TIFFWriter::new(Endian::Big);
    w.set_field(&StripOffsets(vec![8])).unwrap();
    w.set_field(&StripByteCounts(vec![2])).unwrap();
    w.write().unwrap()
}

#[test]
fn image_test_read_baseline() {
    let image = Image::new(build_striped()).expect("Should be a valid baseline image");
    let mut iter = image.stripes_iter();
    let mut stripes: Vec<Vec<u8>> = Vec::new();
    loop {
        match iter.next() {
            Some(buff) => stripes.push(buff),
            None => break,
        }
    }
    assert!(!stripes.is_empty());
}

#[test]
fn baseline_test_read_baseline() {
    let image = Image::new(build_striped()).expect("Should be a valid baseline image");
    let mut iter = image.stripes_iter();
    let mut stripes: Vec<Vec<u8>> = Vec::new();
    loop {
        match iter.next() {
            Some(buff) => stripes.push(buff),
            None => break,
        }
    }
    assert!(!stripes.is_empty());
    assert_eq!(stripes[0].len(), 2);
}
