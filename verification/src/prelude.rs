//! The names that most callers need.

pub use crate::chunk::{Chunk, ChunkType};
pub use crate::constants::{
    CRC_SIZE_OFFSET, HEADER_SIZE, LENGTH_SIZE_OFFSET, MIN_STREAM_SIZE, PNG_SIGNATURE,
    TYPE_SIZE_OFFSET,
};
pub use crate::errors::{FileError, ImageError, ParsingError};
pub use crate::image::Image;
pub use crate::parsed_chunks::{ColorLayout, IHDRChunk};
pub use crate::png::{Png, PngBuilder};
