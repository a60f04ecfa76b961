//! The fixed byte layout of the format.

use vstd::prelude::*;

verus! {

/// The eight bytes that open every PNG stream.
pub const PNG_SIGNATURE: [u8; 8] = [137, 80, 78, 71, 13, 10, 26, 10];

/// Offset of the first byte after a chunk's length field.
pub const LENGTH_SIZE_OFFSET: usize = 4;

/// Offset of the first byte after a chunk's type code, where the payload
/// begins.
pub const TYPE_SIZE_OFFSET: usize = 8;

/// The bytes of a chunk besides its payload: length, type code and checksum.
pub const CRC_SIZE_OFFSET: usize = 12;

/// The fewest bytes of chunks that a stream is decoded from.
pub const MIN_STREAM_SIZE: usize = 16;

/// The payload size of a header chunk.
pub const HEADER_SIZE: usize = 13;

} // verus!
