//! A container-level reader for PNG streams.
//!
//! The library takes a complete byte buffer and splits it into chunks, the
//! length-prefixed, type-tagged, checksummed records of the format. It
//! verifies the checksum of every chunk, enforces the order of the
//! critical chunks (the header first and once, the palette at most once,
//! the end chunk last and once), and decodes the image header. It does not
//! decompress or reconstruct pixels.
//!
//! * [`checksum`]: the CRC-32 of a chunk, computed by `crc32fast`.
//! * [`chunk`]: chunk types, chunks, and the decoder of one chunk.
//! * [`parsed_chunks`]: the header and its color layouts.
//! * [`png`]: the container with its chunks sorted by role, and the walk
//!   over a whole buffer that builds it.
//! * [`image`]: a stream as the plain list of its chunks.
//! * [`stream`]: what is proved of whole streams.
//! * [`errors`]: the errors, as values.

pub mod big_endian;
pub mod checksum;
pub mod chunk;
pub mod constants;
pub mod errors;
pub mod image;
pub mod parsed_chunks;
pub mod png;
pub mod prelude;
pub mod signature;
pub mod stream;
