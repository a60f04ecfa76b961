use griddy::checksum::compute;
use griddy::chunk::{Chunk, ChunkType};
use griddy::errors::{FileError, ImageError, ParsingError};
use griddy::image::Image;
use griddy::parsed_chunks::ColorLayout;
use griddy::png::{Png, PngBuilder};

const MAGIC: [u8; 8] = [137, 80, 78, 71, 13, 10, 26, 10];

fn record(code: &[u8; 4], data: &[u8]) -> Vec<u8> {
    let mut out = Vec::new();
    out.extend_from_slice(&(data.len() as u32).to_be_bytes());
    out.extend_from_slice(code);
    out.extend_from_slice(data);
    out.extend_from_slice(&compute(code, data).to_be_bytes());
    out
}

fn header_record() -> Vec<u8> {
    record(b"IHDR", &[0, 0, 0, 1, 0, 0, 0, 1, 8, 2, 0, 0, 0])
}

fn stream(records: &[Vec<u8>]) -> Vec<u8> {
    let mut out = MAGIC.to_vec();
    for r in records {
        out.extend_from_slice(r);
    }
    out
}

fn valid_stream() -> Vec<u8> {
    stream(&[
        header_record(),
        record(b"gAMA", &[0, 0, 0xB1, 0x8F]),
        record(b"PLTE", &[255, 0, 0, 0, 255, 0]),
        record(b"IDAT", &[1, 2, 3]),
        record(b"tEXt", b"k\0v"),
        record(b"IDAT", &[4]),
        record(b"IEND", &[]),
    ])
}

fn parsing(e: ParsingError) -> ImageError {
    ImageError::ParsingError(e)
}

fn chunk(code: &[u8; 4], data: &[u8]) -> Chunk {
    Chunk::parse(&record(code, data)).unwrap().0
}

#[test]
fn valid_stream_parses() {
    let png = Png::parse(&valid_stream()).unwrap();
    assert_eq!(png.get_ihdr().get_dimensions(), (1, 1));
    assert_eq!(png.get_ihdr().get_color_layout(), ColorLayout::Rgb8);
    assert_eq!(png.get_plte().unwrap().get_data(), &[255, 0, 0, 0, 255, 0]);
    assert_eq!(png.get_plte().unwrap().get_class(), ChunkType::PLTE);
    let idat: Vec<&[u8]> = png.get_idat().iter().map(|c| c.get_data()).collect();
    assert_eq!(idat, vec![&[1u8, 2, 3][..], &[4u8][..]]);
    let names: Vec<String> =
        png.get_ancillary_chunks().iter().map(|c| c.get_class().as_str()).collect();
    assert_eq!(names, vec!["gAMA".to_string(), "tEXt".to_string()]);
    assert_eq!(png.get_iend().get_class(), ChunkType::IEND);
}

#[test]
fn stream_without_image_data_parses() {
    let png = Png::parse(&stream(&[header_record(), record(b"IEND", &[])])).unwrap();
    assert_eq!(png.get_idat().len(), 0);
    assert!(png.get_plte().is_none());
}

#[test]
fn wrong_signature_is_not_recognized() {
    let mut bytes = valid_stream();
    bytes[0] = 0x88;
    assert_eq!(Png::parse(&bytes).unwrap_err(), ImageError::FileError(FileError::NotRecognized));
    let mut bytes = valid_stream();
    bytes[7] = 0x0B;
    assert_eq!(Png::parse(&bytes).unwrap_err(), ImageError::FileError(FileError::NotRecognized));
    assert_eq!(Png::parse(&[]).unwrap_err(), ImageError::FileError(FileError::NotRecognized));
    assert_eq!(
        Png::parse(&MAGIC[..7]).unwrap_err(),
        ImageError::FileError(FileError::NotRecognized)
    );
    // the signature is judged before any chunk: the rest may be rubbish
    assert_eq!(
        Png::parse(&[0, 0, 0, 0, 0, 0, 0, 0, 1, 2, 3]).unwrap_err(),
        ImageError::FileError(FileError::NotRecognized)
    );
}

#[test]
fn signature_alone_misses_the_header() {
    assert_eq!(Png::parse(&MAGIC).unwrap_err(), parsing(ParsingError::MissingHeader));
}

#[test]
fn stream_without_end_misses_the_end() {
    let bytes = stream(&[header_record(), record(b"IDAT", &[1])]);
    assert_eq!(Png::parse(&bytes).unwrap_err(), parsing(ParsingError::MissingEnd));
    let bytes = stream(&[header_record()]);
    assert_eq!(Png::parse(&bytes).unwrap_err(), parsing(ParsingError::MissingEnd));
}

#[test]
fn two_headers_are_a_duplicate() {
    let bytes = stream(&[header_record(), header_record(), record(b"IEND", &[])]);
    assert_eq!(Png::parse(&bytes).unwrap_err(), parsing(ParsingError::DuplicateHeader));
    let bytes = stream(&[
        header_record(),
        record(b"IDAT", &[1]),
        header_record(),
        record(b"IEND", &[]),
    ]);
    assert_eq!(Png::parse(&bytes).unwrap_err(), parsing(ParsingError::DuplicateHeader));
}

#[test]
fn two_palettes_are_a_duplicate() {
    let bytes = stream(&[
        header_record(),
        record(b"PLTE", &[1, 2, 3]),
        record(b"IDAT", &[1]),
        record(b"PLTE", &[1, 2, 3]),
        record(b"IEND", &[]),
    ]);
    assert_eq!(Png::parse(&bytes).unwrap_err(), parsing(ParsingError::DuplicatePalette));
}

#[test]
fn first_chunk_must_be_the_header() {
    let bytes = stream(&[record(b"IDAT", &[1]), header_record(), record(b"IEND", &[])]);
    assert_eq!(Png::parse(&bytes).unwrap_err(), parsing(ParsingError::HeaderNotFirst));
    let bytes = stream(&[record(b"IEND", &[])]);
    assert_eq!(Png::parse(&bytes).unwrap_err(), parsing(ParsingError::HeaderNotFirst));
    let bytes = stream(&[record(b"gAMA", &[0, 0, 0, 1]), header_record()]);
    assert_eq!(Png::parse(&bytes).unwrap_err(), parsing(ParsingError::HeaderNotFirst));
}

#[test]
fn bytes_after_the_end_are_trailing_data() {
    let mut bytes = valid_stream();
    bytes.push(0);
    assert_eq!(Png::parse(&bytes).unwrap_err(), parsing(ParsingError::TrailingDataAfterEnd));
    let mut bytes = valid_stream();
    bytes.extend(record(b"IDAT", &[1]));
    assert_eq!(Png::parse(&bytes).unwrap_err(), parsing(ParsingError::TrailingDataAfterEnd));
    let mut bytes = valid_stream();
    bytes.extend(record(b"IEND", &[]));
    assert_eq!(Png::parse(&bytes).unwrap_err(), parsing(ParsingError::TrailingDataAfterEnd));
    let mut bytes = valid_stream();
    bytes.extend_from_slice(&valid_stream());
    assert_eq!(Png::parse(&bytes).unwrap_err(), parsing(ParsingError::TrailingDataAfterEnd));
}

#[test]
fn malformed_header_fails_at_once() {
    // the header is judged before the broken chunk behind it is looked at
    let mut bytes = stream(&[record(b"IHDR", &[0, 0, 0, 1, 0, 0, 0, 1, 3, 0, 0, 0, 0])]);
    bytes.extend_from_slice(&[1, 2, 3]);
    assert_eq!(Png::parse(&bytes).unwrap_err(), parsing(ParsingError::InvalidColorLayout));
    let bytes = stream(&[record(b"IHDR", &[0, 0, 0, 0, 0, 0, 0, 1, 8, 2, 0, 0, 0])]);
    assert_eq!(Png::parse(&bytes).unwrap_err(), parsing(ParsingError::InvalidDimensions));
    let bytes = stream(&[record(b"IHDR", &[0, 0, 0, 1, 0, 0, 0, 1, 8, 2, 0, 0])]);
    assert_eq!(Png::parse(&bytes).unwrap_err(), parsing(ParsingError::InvalidHeaderSize));
}

#[test]
fn every_changed_type_or_payload_byte_is_a_mismatch() {
    let bytes = valid_stream();
    assert!(Png::parse(&bytes).is_ok());
    let lengths = [13usize, 4, 6, 3, 3, 1, 0];
    let mut start = 8;
    for length in lengths {
        for at in start + 4..start + 8 + length {
            let mut changed = bytes.clone();
            changed[at] = changed[at].wrapping_add(1);
            assert_eq!(Png::parse(&changed).unwrap_err(), parsing(ParsingError::ChecksumMismatch));
            changed[at] = !bytes[at];
            assert_eq!(Png::parse(&changed).unwrap_err(), parsing(ParsingError::ChecksumMismatch));
        }
        start += 12 + length;
    }
    assert_eq!(start, bytes.len());
}

#[test]
fn every_cut_inside_a_chunk_is_caught() {
    let bytes = valid_stream();
    let lengths = [13usize, 4, 6, 3, 3, 1, 0];
    let mut start = 8;
    for length in lengths {
        for kept in start + 1..start + 12 + length {
            let inside = kept - start;
            let expected = if inside < 12 {
                ParsingError::SizeTooSmall
            } else if inside < 8 + length {
                ParsingError::InvalidLength
            } else {
                ParsingError::InvalidChecksum
            };
            assert_eq!(Png::parse(&bytes[..kept]).unwrap_err(), parsing(expected));
        }
        start += 12 + length;
    }
}

#[test]
fn cut_between_chunks_misses_the_end() {
    let bytes = valid_stream();
    assert_eq!(Png::parse(&bytes[..8 + 25]).unwrap_err(), parsing(ParsingError::MissingEnd));
    assert_eq!(Png::parse(&bytes[..bytes.len() - 12]).unwrap_err(), parsing(ParsingError::MissingEnd));
}

#[test]
fn length_that_overruns_is_no_short_chunk() {
    let mut bytes = stream(&[header_record()]);
    let mut last = record(b"IDAT", &[1, 2, 3, 4]);
    last[3] = 200;
    bytes.extend(last);
    assert_eq!(Png::parse(&bytes).unwrap_err(), parsing(ParsingError::InvalidLength));
}

#[test]
fn is_valid_looks_at_sixteen_bytes() {
    let bytes = valid_stream();
    assert!(Png::is_valid(&bytes));
    assert!(Png::is_valid(&bytes[..16]));
    assert!(!Png::is_valid(&bytes[..15]));
    let mut other = bytes.clone();
    other[11] = 12;
    assert!(!Png::is_valid(&other));
    let mut other = bytes.clone();
    other[15] = b'r';
    assert!(!Png::is_valid(&other));
    let mut other = bytes.clone();
    other[1] = b'Q';
    assert!(!Png::is_valid(&other));
    assert!(!Png::is_valid(&[]));
}

#[test]
fn builder_takes_chunks_in_order() {
    let builder = PngBuilder::new();
    assert!(!builder.is_ended());
    let builder = builder.push(chunk(b"IHDR", &[0, 0, 0, 2, 0, 0, 0, 3, 8, 0, 0, 0, 0])).unwrap();
    let builder = builder.push(chunk(b"IDAT", &[1])).unwrap();
    let builder = builder.push(chunk(b"bKGD", &[0, 0])).unwrap();
    assert!(!builder.is_ended());
    let builder = builder.push(chunk(b"IEND", &[])).unwrap();
    assert!(builder.is_ended());
    let png = builder.build().unwrap();
    assert_eq!(png.get_ihdr().get_dimensions(), (2, 3));
    assert_eq!(png.get_ihdr().get_color_layout(), ColorLayout::Gray8);
    assert_eq!(png.get_idat().len(), 1);
    assert_eq!(png.get_ancillary_chunks().len(), 1);
}

#[test]
fn builder_refuses_what_breaks_the_order() {
    let header = [0, 0, 0, 2, 0, 0, 0, 3, 8, 0, 0, 0, 0];
    assert_eq!(PngBuilder::new().build().unwrap_err(), ParsingError::MissingHeader);
    assert_eq!(
        PngBuilder::new().push(chunk(b"PLTE", &[])).err(),
        Some(ParsingError::HeaderNotFirst)
    );
    let started = || PngBuilder::new().push(chunk(b"IHDR", &header)).unwrap();
    assert_eq!(started().build().unwrap_err(), ParsingError::MissingEnd);
    assert_eq!(
        started().push(chunk(b"IHDR", &header)).err(),
        Some(ParsingError::DuplicateHeader)
    );
    let with_palette = started().push(chunk(b"PLTE", &[1, 2, 3])).unwrap();
    assert_eq!(
        with_palette.push(chunk(b"PLTE", &[1, 2, 3])).err(),
        Some(ParsingError::DuplicatePalette)
    );
    let ended = || started().push(chunk(b"IEND", &[])).unwrap();
    assert_eq!(ended().push(chunk(b"IEND", &[])).err(), Some(ParsingError::DuplicateEnd));
    assert_eq!(ended().push(chunk(b"IDAT", &[])).err(), Some(ParsingError::TrailingDataAfterEnd));
    assert_eq!(
        ended().push(chunk(b"IHDR", &header)).err(),
        Some(ParsingError::TrailingDataAfterEnd)
    );
}

#[test]
fn flat_image_needs_sixteen_bytes_of_chunks() {
    assert_eq!(Image::parse(&MAGIC).unwrap_err(), parsing(ParsingError::SizeTooSmall));
    let lone_end = stream(&[record(b"IEND", &[])]);
    assert_eq!(Image::parse(&lone_end).unwrap_err(), parsing(ParsingError::SizeTooSmall));
    let one = stream(&[record(b"IDAT", &[1, 2, 3, 4])]);
    let image = Image::parse(&one).unwrap();
    assert_eq!(image.len(), 1);
    assert_eq!(image.get_ihdr(), Err(ParsingError::InvalidHeaderSize));
}

#[test]
fn flat_image_keeps_every_chunk() {
    let bytes = stream(&[
        record(b"IDAT", &[1]),
        header_record(),
        record(b"IEND", &[]),
        record(b"IEND", &[]),
    ]);
    let image = Image::parse(&bytes).unwrap();
    assert_eq!(image.len(), 4);
    let mut broken = bytes.clone();
    broken[8 + 8] ^= 0x40;
    assert_eq!(Image::parse(&broken).unwrap_err(), parsing(ParsingError::ChecksumMismatch));
}

#[test]
fn errors_have_messages() {
    assert_eq!(FileError::FileNotFound.message(), "File not found");
    assert_eq!(FileError::FailedToRead.message(), "Failed to read file");
    assert_eq!(FileError::NotRecognized.message(), "File is not a PNG");
    assert_eq!(ParsingError::SizeTooSmall.message(), "Buffer size too small");
    assert_eq!(ParsingError::InvalidLength.message(), "Invalid chunk length");
    assert_eq!(ParsingError::InvalidType.message(), "Invalid chunk type");
    assert_eq!(ParsingError::InvalidChecksum.message(), "Invalid chunk crc");
    assert_eq!(ParsingError::ChecksumMismatch.message(), "Chunk crc mismatch");
    assert_eq!(ParsingError::InvalidHeaderSize.message(), "Invalid header size");
    assert_eq!(ParsingError::InvalidDimensions.message(), "Invalid image dimensions");
    assert_eq!(
        ParsingError::InvalidColorLayout.message(),
        "Invalid color type and bit depth combination"
    );
    assert_eq!(ParsingError::DuplicateHeader.message(), "More than one header chunk");
    assert_eq!(ParsingError::DuplicatePalette.message(), "More than one palette chunk");
    assert_eq!(ParsingError::DuplicateEnd.message(), "More than one end chunk");
    assert_eq!(ParsingError::MissingHeader.message(), "Missing header chunk");
    assert_eq!(ParsingError::MissingEnd.message(), "Missing end chunk");
    assert_eq!(ParsingError::HeaderNotFirst.message(), "Header chunk is not first");
    assert_eq!(ParsingError::TrailingDataAfterEnd.message(), "Data after the end chunk");
    assert_eq!(
        ImageError::from(ParsingError::ChecksumMismatch).message(),
        "Chunk crc mismatch"
    );
    assert_eq!(ImageError::from(FileError::FileNotFound).message(), "File not found");
}

#[test]
fn errors_convert_into_image_errors() {
    let e: ImageError = FileError::FileNotFound.into();
    assert_eq!(e, ImageError::FileError(FileError::FileNotFound));
    let e: ImageError = FileError::FailedToRead.into();
    assert_eq!(e, ImageError::FileError(FileError::FailedToRead));
    let e: ImageError = ParsingError::MissingEnd.into();
    assert_eq!(e, ImageError::ParsingError(ParsingError::MissingEnd));
}
