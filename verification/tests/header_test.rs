use griddy::chunk::{Chunk, ChunkType};
use griddy::errors::ParsingError;
use griddy::parsed_chunks::{ColorLayout, IHDRChunk};

fn payload(width: u32, height: u32, tail: [u8; 5]) -> Vec<u8> {
    let mut out = Vec::new();
    out.extend_from_slice(&width.to_be_bytes());
    out.extend_from_slice(&height.to_be_bytes());
    out.extend_from_slice(&tail);
    out
}

const LEGAL: [(u8, u8, ColorLayout); 15] = [
    (1, 0, ColorLayout::Gray1),
    (2, 0, ColorLayout::Gray2),
    (4, 0, ColorLayout::Gray4),
    (8, 0, ColorLayout::Gray8),
    (16, 0, ColorLayout::Gray16),
    (8, 2, ColorLayout::Rgb8),
    (16, 2, ColorLayout::Rgb16),
    (1, 3, ColorLayout::Plt1),
    (2, 3, ColorLayout::Plt2),
    (4, 3, ColorLayout::Plt4),
    (8, 3, ColorLayout::Plt8),
    (8, 4, ColorLayout::GrayAlpha8),
    (16, 4, ColorLayout::GrayAlpha16),
    (8, 6, ColorLayout::RgbAlpha8),
    (16, 6, ColorLayout::RgbAlpha16),
];

#[test]
fn every_legal_pair_has_its_layout() {
    for (bit_depth, color_type, layout) in LEGAL {
        assert_eq!(ColorLayout::from_bit_depth_and_color_type(bit_depth, color_type), Ok(layout));
        assert_eq!(layout.bit_depth(), bit_depth);
        assert_eq!(layout.color_type(), color_type);
    }
}

#[test]
fn every_other_pair_is_refused() {
    let mut refused = 0;
    for bit_depth in 0..=255u8 {
        for color_type in 0..=255u8 {
            let legal = LEGAL.iter().any(|(b, c, _)| *b == bit_depth && *c == color_type);
            let r = ColorLayout::from_bit_depth_and_color_type(bit_depth, color_type);
            if legal {
                assert!(r.is_ok());
            } else {
                assert_eq!(r, Err(ParsingError::InvalidColorLayout));
                refused += 1;
            }
        }
    }
    assert_eq!(refused, 256 * 256 - 15);
}

#[test]
fn bit_depth_three_is_refused_with_every_color_type() {
    for color_type in 0..=255u8 {
        assert_eq!(
            ColorLayout::from_bit_depth_and_color_type(3, color_type),
            Err(ParsingError::InvalidColorLayout)
        );
        assert_eq!(
            IHDRChunk::from_bytes(&payload(1, 1, [3, color_type, 0, 0, 0])),
            Err(ParsingError::InvalidColorLayout)
        );
    }
}

#[test]
fn truecolor_eight_decodes() {
    let header = IHDRChunk::from_bytes(&payload(1, 1, [8, 2, 0, 0, 0])).unwrap();
    assert_eq!(header.get_color_layout(), ColorLayout::Rgb8);
    assert_eq!(header, IHDRChunk::new((1, 1), ColorLayout::Rgb8, 0, 0, 0));
}

#[test]
fn header_fields_are_read_in_order() {
    let bytes = [0x00, 0x00, 0x03, 0x52, 0x00, 0x00, 0x02, 0x36, 16, 6, 9, 8, 1];
    let header = IHDRChunk::from_bytes(&bytes).unwrap();
    assert_eq!(header.get_dimensions(), (850, 566));
    assert_eq!(header.get_color_layout(), ColorLayout::RgbAlpha16);
    assert_eq!(header.get_bit_depth(), 16);
    assert_eq!(header.get_color_type(), 6);
    assert_eq!(header.get_compression_method(), 9);
    assert_eq!(header.get_filter_method(), 8);
    assert_eq!(header.get_interlace_method(), 1);
}

#[test]
fn header_with_largest_dimensions() {
    let header = IHDRChunk::from_bytes(&payload(u32::MAX, u32::MAX, [1, 0, 0, 0, 0])).unwrap();
    assert_eq!(header.get_dimensions(), (u32::MAX, u32::MAX));
    assert_eq!(header.get_color_layout(), ColorLayout::Gray1);
}

#[test]
fn header_size_must_be_thirteen() {
    let good = payload(1, 1, [8, 2, 0, 0, 0]);
    assert_eq!(IHDRChunk::from_bytes(&good[..12]), Err(ParsingError::InvalidHeaderSize));
    assert_eq!(IHDRChunk::from_bytes(&[]), Err(ParsingError::InvalidHeaderSize));
    let mut long = good.clone();
    long.push(0);
    assert_eq!(IHDRChunk::from_bytes(&long), Err(ParsingError::InvalidHeaderSize));
}

#[test]
fn header_dimensions_must_not_be_zero() {
    assert_eq!(
        IHDRChunk::from_bytes(&payload(0, 1, [8, 2, 0, 0, 0])),
        Err(ParsingError::InvalidDimensions)
    );
    assert_eq!(
        IHDRChunk::from_bytes(&payload(1, 0, [8, 2, 0, 0, 0])),
        Err(ParsingError::InvalidDimensions)
    );
    assert_eq!(
        IHDRChunk::from_bytes(&payload(0, 0, [3, 0, 0, 0, 0])),
        Err(ParsingError::InvalidDimensions)
    );
}

#[test]
fn header_from_chunk_reads_the_payload() {
    let data = payload(640, 480, [8, 3, 0, 0, 1]);
    let chunk = Chunk::new(13, ChunkType::IHDR, data, 0);
    let header = IHDRChunk::from_chunk(&chunk).unwrap();
    assert_eq!(header, IHDRChunk::new((640, 480), ColorLayout::Plt8, 0, 0, 1));
    let short = Chunk::new(0, ChunkType::IHDR, vec![], 0);
    assert_eq!(IHDRChunk::from_chunk(&short), Err(ParsingError::InvalidHeaderSize));
}
