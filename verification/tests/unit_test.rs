use griddy::checksum::compute;
use griddy::chunk::ChunkType;
use griddy::errors::{FileError, ImageError};
use griddy::image::Image;
use griddy::parsed_chunks::{ColorLayout, IHDRChunk};
use griddy::png::Png;

const SIGNATURE: [u8; 8] = [137, 80, 78, 71, 13, 10, 26, 10];

fn chunk_bytes(code: &[u8; 4], data: &[u8]) -> Vec<u8> {
    let mut out = Vec::new();
    out.extend_from_slice(&(data.len() as u32).to_be_bytes());
    out.extend_from_slice(code);
    out.extend_from_slice(data);
    out.extend_from_slice(&compute(code, data).to_be_bytes());
    out
}

fn header_payload(width: u32, height: u32, bit_depth: u8, color_type: u8) -> Vec<u8> {
    let mut out = Vec::new();
    out.extend_from_slice(&width.to_be_bytes());
    out.extend_from_slice(&height.to_be_bytes());
    out.extend_from_slice(&[bit_depth, color_type, 0, 0, 0]);
    out
}

/// A stream like a small photograph: 850 by 566 pixels, truecolor, eight
/// bits, with a text chunk and two image-data chunks.
fn sample_png() -> Vec<u8> {
    let mut out = SIGNATURE.to_vec();
    out.extend(chunk_bytes(b"IHDR", &header_payload(850, 566, 8, 2)));
    out.extend(chunk_bytes(b"tEXt", b"Comment\0sample"));
    out.extend(chunk_bytes(b"IDAT", &[0x78, 0x9c, 0x01]));
    out.extend(chunk_bytes(b"IDAT", &[0x02, 0x03]));
    out.extend(chunk_bytes(b"IEND", &[]));
    out
}

/// The first bytes of a JPEG file.
fn sample_jpg() -> Vec<u8> {
    let mut out = vec![0xFF, 0xD8, 0xFF, 0xE0, 0x00, 0x10];
    out.extend_from_slice(b"JFIF\0");
    out.extend_from_slice(&[1, 1, 0, 0, 72, 0, 72, 0, 0, 0xFF, 0xD9]);
    out
}

#[test]
fn main_test_is_png() {
    let bytes = sample_png();
    assert!(Image::is_png(&bytes));
}

#[test]
fn unit_test_test_is_png() {
    let image = Png::parse(&sample_png());
    assert!(image.is_ok());
}

#[test]
fn test_not_a_png() {
    let image = Png::parse(&sample_jpg());
    assert_eq!(image.unwrap_err(), FileError::NotRecognized.into());
}

#[test]
fn test_ihdr() {
    let test_ihdr = IHDRChunk::new((850, 566), ColorLayout::Rgb8, 0, 0, 0);
    let image = Png::parse(&sample_png()).unwrap();
    assert_eq!(image.get_ihdr(), &test_ihdr);
}

#[test]
fn test_iend() {
    let image = Png::parse(&sample_png()).unwrap();
    let end = image.get_iend();
    assert_eq!(end.get_class(), ChunkType::IEND);
    assert_eq!(end.get_length(), 0);
    assert_eq!(end.get_data(), &[] as &[u8]);
    assert_eq!(end.get_crc(), 0xAE42_6082);
}

#[test]
fn not_a_png_is_a_file_error() {
    assert!(!Image::is_png(&sample_jpg()));
    assert_eq!(
        Image::parse(&sample_jpg()).unwrap_err(),
        ImageError::FileError(FileError::NotRecognized)
    );
    assert!(!Png::is_valid(&sample_jpg()));
}

#[test]
fn sample_is_sorted_by_role() {
    let png = Png::parse(&sample_png()).unwrap();
    assert!(png.get_plte().is_none());
    let idat = png.get_idat();
    assert_eq!(idat.len(), 2);
    assert_eq!(idat[0].get_data(), &[0x78, 0x9c, 0x01]);
    assert_eq!(idat[1].get_data(), &[0x02, 0x03]);
    let ancillary = png.get_ancillary_chunks();
    assert_eq!(ancillary.len(), 1);
    assert_eq!(ancillary[0].get_class(), ChunkType::Ancillary(*b"tEXt"));
    assert_eq!(ancillary[0].get_class().as_str(), "tEXt");
    assert_eq!(ancillary[0].get_data(), b"Comment\0sample");
}

#[test]
fn sample_as_flat_image() {
    let image = Image::parse(&sample_png()).unwrap();
    assert_eq!(image.len(), 5);
    assert_eq!(image.get(0).unwrap().get_class(), ChunkType::IHDR);
    assert_eq!(image.get(4).unwrap().get_class(), ChunkType::IEND);
    assert!(image.get(5).is_none());
    let header = image.get_ihdr().unwrap();
    assert_eq!(header.get_dimensions(), (850, 566));
    assert_eq!(image.ihdr_parse(), header);
    let classes: Vec<ChunkType> = image.chunks().iter().map(|c| c.get_class()).collect();
    assert_eq!(
        classes,
        vec![
            ChunkType::IHDR,
            ChunkType::Ancillary(*b"tEXt"),
            ChunkType::IDAT,
            ChunkType::IDAT,
            ChunkType::IEND
        ]
    );
    assert_eq!(image.into_chunks().len(), 5);
}

#[test]
fn end_to_end_minimal_stream() {
    let mut bytes = SIGNATURE.to_vec();
    bytes.extend(chunk_bytes(b"IHDR", &header_payload(1, 1, 8, 2)));
    bytes.extend(chunk_bytes(b"IDAT", &[]));
    bytes.extend(chunk_bytes(b"IEND", &[]));
    assert_eq!(bytes.len(), 8 + 25 + 12 + 12);
    assert!(Png::is_valid(&bytes));
    let png = Png::parse(&bytes).unwrap();
    let header = png.get_ihdr();
    assert_eq!(header.get_dimensions(), (1, 1));
    assert_eq!(header.get_color_layout(), ColorLayout::Rgb8);
    assert_eq!(header.get_bit_depth(), 8);
    assert_eq!(header.get_color_type(), 2);
    assert_eq!(header.get_compression_method(), 0);
    assert_eq!(header.get_filter_method(), 0);
    assert_eq!(header.get_interlace_method(), 0);
    assert_eq!(png.get_ancillary_chunks().len(), 0);
    assert_eq!(png.get_idat().len(), 1);
    assert_eq!(png.get_iend().get_class(), ChunkType::IEND);
}
