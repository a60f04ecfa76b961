//! The image header: what the payload of the header chunk says.

use crate::big_endian::{read_u32_be, spec_u32_from_be_bytes};
use crate::chunk::Chunk;
use crate::constants::HEADER_SIZE;
use crate::errors::ParsingError;
use vstd::prelude::*;

verus! {

/// How the samples of a pixel are laid out: a color model together with a
/// bit depth that the model allows.
#[derive(Debug, PartialEq, Eq, Copy, Clone, Structural)]
pub enum ColorLayout {
    Gray1,
    Gray2,
    Gray4,
    Gray8,
    Gray16,
    Rgb8,
    Rgb16,
    Plt1,
    Plt2,
    Plt4,
    Plt8,
    GrayAlpha8,
    GrayAlpha16,
    RgbAlpha8,
    RgbAlpha16,
}

/// Whether the format allows this bit depth with this color type:
/// grayscale (0) with 1, 2, 4, 8 or 16 bits; truecolor (2), grayscale with
/// alpha (4) and truecolor with alpha (6) with 8 or 16; indexed (3) with 1,
/// 2, 4 or 8.
pub open spec fn legal_layout(bit_depth: u8, color_type: u8) -> bool {
    ||| color_type == 0 && (bit_depth == 1 || bit_depth == 2 || bit_depth == 4 || bit_depth == 8
        || bit_depth == 16)
    ||| color_type == 2 && (bit_depth == 8 || bit_depth == 16)
    ||| color_type == 3 && (bit_depth == 1 || bit_depth == 2 || bit_depth == 4 || bit_depth == 8)
    ||| color_type == 4 && (bit_depth == 8 || bit_depth == 16)
    ||| color_type == 6 && (bit_depth == 8 || bit_depth == 16)
}

impl ColorLayout {
    /// The number of bits of one sample.
    pub open spec fn spec_bit_depth(self) -> u8 {
        match self {
            ColorLayout::Gray1 | ColorLayout::Plt1 => 1,
            ColorLayout::Gray2 | ColorLayout::Plt2 => 2,
            ColorLayout::Gray4 | ColorLayout::Plt4 => 4,
            ColorLayout::Gray8 | ColorLayout::Rgb8 | ColorLayout::Plt8 | ColorLayout::GrayAlpha8
            | ColorLayout::RgbAlpha8 => 8,
            ColorLayout::Gray16 | ColorLayout::Rgb16 | ColorLayout::GrayAlpha16
            | ColorLayout::RgbAlpha16 => 16,
        }
    }

    /// The color type as the header spells it.
    pub open spec fn spec_color_type(self) -> u8 {
        match self {
            ColorLayout::Gray1 | ColorLayout::Gray2 | ColorLayout::Gray4 | ColorLayout::Gray8
            | ColorLayout::Gray16 => 0,
            ColorLayout::Rgb8 | ColorLayout::Rgb16 => 2,
            ColorLayout::Plt1 | ColorLayout::Plt2 | ColorLayout::Plt4 | ColorLayout::Plt8 => 3,
            ColorLayout::GrayAlpha8 | ColorLayout::GrayAlpha16 => 4,
            ColorLayout::RgbAlpha8 | ColorLayout::RgbAlpha16 => 6,
        }
    }

    /// The layout with this bit depth and color type, if the pair is legal.
    pub open spec fn spec_from(bit_depth: u8, color_type: u8) -> Option<ColorLayout> {
        if legal_layout(bit_depth, color_type) {
            Some(
                choose|layout: ColorLayout|
                    layout.spec_bit_depth() == bit_depth && layout.spec_color_type() == color_type,
            )
        } else {
            None
        }
    }

    /// The layout that pairs `bit_depth` with `color_type`. A pair that the
    /// format does not allow is refused with `InvalidColorLayout`.
    pub fn from_bit_depth_and_color_type(bit_depth: u8, color_type: u8) -> (r: Result<
        ColorLayout,
        ParsingError,
    >)
        ensures
            legal_layout(bit_depth, color_type) <==> r is Ok,
            r matches Ok(layout) ==> layout.spec_bit_depth() == bit_depth
                && layout.spec_color_type() == color_type,
            r matches Err(e) ==> e == ParsingError::InvalidColorLayout,
            r == match ColorLayout::spec_from(bit_depth, color_type) {
                Some(layout) => Ok::<ColorLayout, ParsingError>(layout),
                None => Err::<ColorLayout, ParsingError>(ParsingError::InvalidColorLayout),
            },
    {
        let r = match (bit_depth, color_type) {
            (1, 0) => Ok(ColorLayout::Gray1),
            (2, 0) => Ok(ColorLayout::Gray2),
            (4, 0) => Ok(ColorLayout::Gray4),
            (8, 0) => Ok(ColorLayout::Gray8),
            (16, 0) => Ok(ColorLayout::Gray16),
            (8, 2) => Ok(ColorLayout::Rgb8),
            (16, 2) => Ok(ColorLayout::Rgb16),
            (1, 3) => Ok(ColorLayout::Plt1),
            (2, 3) => Ok(ColorLayout::Plt2),
            (4, 3) => Ok(ColorLayout::Plt4),
            (8, 3) => Ok(ColorLayout::Plt8),
            (8, 4) => Ok(ColorLayout::GrayAlpha8),
            (16, 4) => Ok(ColorLayout::GrayAlpha16),
            (8, 6) => Ok(ColorLayout::RgbAlpha8),
            (16, 6) => Ok(ColorLayout::RgbAlpha16),
            _ => Err(ParsingError::InvalidColorLayout),
        };
        proof {
            if let Ok(layout) = r {
                lemma_layout_determined(
                    layout,
                    ColorLayout::spec_from(bit_depth, color_type)->Some_0,
                );
            }
        }
        r
    }

    /// The number of bits of one sample.
    pub fn bit_depth(&self) -> (bits: u8)
        ensures
            bits == self.spec_bit_depth(),
    {
        match self {
            ColorLayout::Gray1 | ColorLayout::Plt1 => 1,
            ColorLayout::Gray2 | ColorLayout::Plt2 => 2,
            ColorLayout::Gray4 | ColorLayout::Plt4 => 4,
            ColorLayout::Gray8 | ColorLayout::Rgb8 | ColorLayout::Plt8 | ColorLayout::GrayAlpha8
            | ColorLayout::RgbAlpha8 => 8,
            ColorLayout::Gray16 | ColorLayout::Rgb16 | ColorLayout::GrayAlpha16
            | ColorLayout::RgbAlpha16 => 16,
        }
    }

    /// The color type as the header spells it.
    pub fn color_type(&self) -> (color_type: u8)
        ensures
            color_type == self.spec_color_type(),
    {
        match self {
            ColorLayout::Gray1 | ColorLayout::Gray2 | ColorLayout::Gray4 | ColorLayout::Gray8
            | ColorLayout::Gray16 => 0,
            ColorLayout::Rgb8 | ColorLayout::Rgb16 => 2,
            ColorLayout::Plt1 | ColorLayout::Plt2 | ColorLayout::Plt4 | ColorLayout::Plt8 => 3,
            ColorLayout::GrayAlpha8 | ColorLayout::GrayAlpha16 => 4,
            ColorLayout::RgbAlpha8 | ColorLayout::RgbAlpha16 => 6,
        }
    }
}

/// Bit depth and color type determine the layout: two layouts that agree in
/// both are the same.
pub proof fn lemma_layout_determined(a: ColorLayout, b: ColorLayout)
    requires
        a.spec_bit_depth() == b.spec_bit_depth(),
        a.spec_color_type() == b.spec_color_type(),
    ensures
        a == b,
{
}

/// Every layout pairs a bit depth with a color type that allows it, and is
/// the layout of that pair.
pub proof fn lemma_layout_round_trip(layout: ColorLayout)
    ensures
        legal_layout(layout.spec_bit_depth(), layout.spec_color_type()),
        ColorLayout::spec_from(layout.spec_bit_depth(), layout.spec_color_type()) == Some(layout),
{
    let found = ColorLayout::spec_from(layout.spec_bit_depth(), layout.spec_color_type())->Some_0;
    lemma_layout_determined(found, layout);
}

/// A legal pair of bit depth and color type is the pair of its layout.
pub proof fn lemma_legal_layout_exists(bit_depth: u8, color_type: u8)
    requires
        legal_layout(bit_depth, color_type),
    ensures
        ColorLayout::spec_from(bit_depth, color_type) matches Some(layout)
            && layout.spec_bit_depth() == bit_depth && layout.spec_color_type() == color_type,
{
    let witness = if color_type == 0 {
        if bit_depth == 1 {
            ColorLayout::Gray1
        } else if bit_depth == 2 {
            ColorLayout::Gray2
        } else if bit_depth == 4 {
            ColorLayout::Gray4
        } else if bit_depth == 8 {
            ColorLayout::Gray8
        } else {
            ColorLayout::Gray16
        }
    } else if color_type == 2 {
        if bit_depth == 8 {
            ColorLayout::Rgb8
        } else {
            ColorLayout::Rgb16
        }
    } else if color_type == 3 {
        if bit_depth == 1 {
            ColorLayout::Plt1
        } else if bit_depth == 2 {
            ColorLayout::Plt2
        } else if bit_depth == 4 {
            ColorLayout::Plt4
        } else {
            ColorLayout::Plt8
        }
    } else if color_type == 4 {
        if bit_depth == 8 {
            ColorLayout::GrayAlpha8
        } else {
            ColorLayout::GrayAlpha16
        }
    } else {
        if bit_depth == 8 {
            ColorLayout::RgbAlpha8
        } else {
            ColorLayout::RgbAlpha16
        }
    };
    assert(witness.spec_bit_depth() == bit_depth && witness.spec_color_type() == color_type);
}

/// A bit depth of three is legal with no color type.
pub proof fn lemma_bit_depth_three_is_illegal(color_type: u8)
    ensures
        !legal_layout(3, color_type),
        ColorLayout::spec_from(3, color_type) is None,
{
}

/// The decoded header of an image.
#[derive(Debug, PartialEq, Eq, Copy, Clone)]
pub struct IHDRChunk {
    dimensions: (u32, u32),
    color_layout: ColorLayout,
    compression_method: u8,
    filter_method: u8,
    interlace_method: u8,
}

/// A header as a mathematical value.
pub struct HeaderView {
    /// Width in pixels.
    pub width: u32,
    /// Height in pixels.
    pub height: u32,
    /// Bit depth and color model.
    pub color_layout: ColorLayout,
    /// The compression method byte.
    pub compression_method: u8,
    /// The filter method byte.
    pub filter_method: u8,
    /// The interlace method byte.
    pub interlace_method: u8,
}

impl HeaderView {
    /// A header is well formed when neither dimension is zero.
    pub open spec fn wf(self) -> bool {
        self.width > 0 && self.height > 0
    }
}

impl View for IHDRChunk {
    type V = HeaderView;

    closed spec fn view(&self) -> HeaderView {
        HeaderView {
            width: self.dimensions.0,
            height: self.dimensions.1,
            color_layout: self.color_layout,
            compression_method: self.compression_method,
            filter_method: self.filter_method,
            interlace_method: self.interlace_method,
        }
    }
}

/// What decoding a header payload gives: the header, or the reason why the
/// payload is none. The size is judged first, then width, height and
/// the pair of bit depth and color type, in this order.
pub open spec fn spec_decode_header(payload: Seq<u8>) -> Result<HeaderView, ParsingError> {
    if payload.len() != 13 {
        Err(ParsingError::InvalidHeaderSize)
    } else {
        let width = spec_u32_from_be_bytes(payload.subrange(0, 4));
        let height = spec_u32_from_be_bytes(payload.subrange(4, 8));
        if width == 0 || height == 0 {
            Err(ParsingError::InvalidDimensions)
        } else {
            match ColorLayout::spec_from(payload[8], payload[9]) {
                None => Err(ParsingError::InvalidColorLayout),
                Some(color_layout) => Ok(
                    HeaderView {
                        width,
                        height,
                        color_layout,
                        compression_method: payload[10],
                        filter_method: payload[11],
                        interlace_method: payload[12],
                    },
                ),
            }
        }
    }
}

impl IHDRChunk {
    /// A header with these fields, taken as they are.
    pub fn new(
        dimensions: (u32, u32),
        color_layout: ColorLayout,
        compression_method: u8,
        filter_method: u8,
        interlace_method: u8,
    ) -> (header: IHDRChunk)
        ensures
            header@ == (HeaderView {
                width: dimensions.0,
                height: dimensions.1,
                color_layout,
                compression_method,
                filter_method,
                interlace_method,
            }),
    {
        IHDRChunk { dimensions, color_layout, compression_method, filter_method, interlace_method }
    }

    /// Decodes the thirteen bytes of a header payload.
    pub fn from_bytes(payload: &[u8]) -> (r: Result<IHDRChunk, ParsingError>)
        ensures
            match r {
                Ok(header) => spec_decode_header(payload@) == Ok::<HeaderView, ParsingError>(
                    header@,
                ),
                Err(e) => spec_decode_header(payload@) == Err::<HeaderView, ParsingError>(e),
            },
    {
        if payload.len() != HEADER_SIZE {
            return Err(ParsingError::InvalidHeaderSize);
        }
        let width: u32 = read_u32_be(payload, 0);
        let height: u32 = read_u32_be(payload, 4);
        if width == 0 || height == 0 {
            return Err(ParsingError::InvalidDimensions);
        }
        match ColorLayout::from_bit_depth_and_color_type(payload[8], payload[9]) {
            Err(e) => Err(e),
            Ok(color_layout) => Ok(
                IHDRChunk::new(
                    (width, height),
                    color_layout,
                    payload[10],
                    payload[11],
                    payload[12],
                ),
            ),
        }
    }

    /// Decodes the header that a chunk carries in its payload.
    pub fn from_chunk(chunk: &Chunk) -> (r: Result<IHDRChunk, ParsingError>)
        ensures
            match r {
                Ok(header) => spec_decode_header(chunk@.data) == Ok::<HeaderView, ParsingError>(
                    header@,
                ),
                Err(e) => spec_decode_header(chunk@.data) == Err::<HeaderView, ParsingError>(e),
            },
    {
        IHDRChunk::from_bytes(chunk.get_data())
    }

    /// Width and height in pixels.
    pub fn get_dimensions(&self) -> (dimensions: (u32, u32))
        ensures
            dimensions.0 == self@.width,
            dimensions.1 == self@.height,
    {
        self.dimensions
    }

    /// Bit depth and color model.
    pub fn get_color_layout(&self) -> (color_layout: ColorLayout)
        ensures
            color_layout == self@.color_layout,
    {
        self.color_layout
    }

    /// The number of bits of one sample.
    pub fn get_bit_depth(&self) -> (bits: u8)
        ensures
            bits == self@.color_layout.spec_bit_depth(),
    {
        self.color_layout.bit_depth()
    }

    /// The color type as the header spells it.
    pub fn get_color_type(&self) -> (color_type: u8)
        ensures
            color_type == self@.color_layout.spec_color_type(),
    {
        self.color_layout.color_type()
    }

    /// The compression method byte.
    pub fn get_compression_method(&self) -> (method: u8)
        ensures
            method == self@.compression_method,
    {
        self.compression_method
    }

    /// The filter method byte.
    pub fn get_filter_method(&self) -> (method: u8)
        ensures
            method == self@.filter_method,
    {
        self.filter_method
    }

    /// The interlace method byte.
    pub fn get_interlace_method(&self) -> (method: u8)
        ensures
            method == self@.interlace_method,
    {
        self.interlace_method
    }
}

/// A decoded header is well formed: neither dimension is zero.
pub proof fn lemma_decoded_header_wf(payload: Seq<u8>)
    requires
        spec_decode_header(payload) is Ok,
    ensures
        spec_decode_header(payload)->Ok_0.wf(),
{
}

/// A payload whose bit depth is three decodes to no header: whatever the
/// color type, a payload of the right size with dimensions that are not zero
/// is refused with `InvalidColorLayout`.
pub proof fn lemma_header_with_bit_depth_three(payload: Seq<u8>)
    requires
        payload.len() == 13,
        payload[8] == 3,
        spec_u32_from_be_bytes(payload.subrange(0, 4)) != 0,
        spec_u32_from_be_bytes(payload.subrange(4, 8)) != 0,
    ensures
        spec_decode_header(payload) == Err::<HeaderView, ParsingError>(
            ParsingError::InvalidColorLayout,
        ),
{
}

/// A payload with bit depth eight and color type two, of the right size and
/// with dimensions that are not zero, decodes to a header with the
/// truecolor layout of eight bits.
pub proof fn lemma_header_truecolor_eight(payload: Seq<u8>)
    requires
        payload.len() == 13,
        payload[8] == 8,
        payload[9] == 2,
        spec_u32_from_be_bytes(payload.subrange(0, 4)) != 0,
        spec_u32_from_be_bytes(payload.subrange(4, 8)) != 0,
    ensures
        spec_decode_header(payload) is Ok,
        spec_decode_header(payload)->Ok_0.color_layout == ColorLayout::Rgb8,
{
    lemma_legal_layout_exists(8, 2);
    lemma_layout_determined(ColorLayout::spec_from(8, 2)->Some_0, ColorLayout::Rgb8);
}

} // verus!
