//! The errors of reading a PNG stream, as values.

use vstd::prelude::*;

verus! {

/// Why no PNG stream could be had from a file.
#[derive(Debug, PartialEq, Eq, Clone, Copy, Structural)]
pub enum FileError {
    /// The file could not be opened.
    FileNotFound,
    /// The file could not be read to its end.
    FailedToRead,
    /// The bytes do not begin with the PNG signature.
    NotRecognized,
}

/// Why a byte stream is not a well-formed sequence of chunks.
#[derive(Debug, PartialEq, Eq, Clone, Copy, Structural)]
pub enum ParsingError {
    /// Fewer bytes remain than the smallest chunk takes.
    SizeTooSmall,
    /// The declared payload length runs past the end of the buffer.
    InvalidLength,
    /// A type code is not four bytes long.
    InvalidType,
    /// The buffer ends inside the stored checksum.
    InvalidChecksum,
    /// The stored checksum is not the checksum of the type code and payload.
    ChecksumMismatch,
    /// A header payload is not thirteen bytes long.
    InvalidHeaderSize,
    /// The header declares a width or a height of zero.
    InvalidDimensions,
    /// The header pairs a bit depth with a color type that does not allow it.
    InvalidColorLayout,
    /// A second header chunk.
    DuplicateHeader,
    /// A second palette chunk.
    DuplicatePalette,
    /// A second end chunk.
    DuplicateEnd,
    /// The stream holds no header chunk.
    MissingHeader,
    /// The stream holds no end chunk.
    MissingEnd,
    /// The first chunk is not the header chunk.
    HeaderNotFirst,
    /// Something follows the end chunk.
    TrailingDataAfterEnd,
}

/// Any error of opening, reading or parsing an image.
#[derive(Debug, PartialEq, Eq, Clone, Copy, Structural)]
pub enum ImageError {
    FileError(FileError),
    ParsingError(ParsingError),
}

impl FileError {
    /// The text shown to a user for this error.
    pub open spec fn spec_message(self) -> Seq<char> {
        match self {
            FileError::FileNotFound => "File not found"@,
            FileError::FailedToRead => "Failed to read file"@,
            FileError::NotRecognized => "File is not a PNG"@,
        }
    }

    /// The text shown to a user for this error.
    pub fn message(&self) -> (text: String)
        ensures
            text@ == self.spec_message(),
    {
        match self {
            FileError::FileNotFound => "File not found".to_owned(),
            FileError::FailedToRead => "Failed to read file".to_owned(),
            FileError::NotRecognized => "File is not a PNG".to_owned(),
        }
    }
}

impl ParsingError {
    /// The text shown to a user for this error.
    pub open spec fn spec_message(self) -> Seq<char> {
        match self {
            ParsingError::SizeTooSmall => "Buffer size too small"@,
            ParsingError::InvalidLength => "Invalid chunk length"@,
            ParsingError::InvalidType => "Invalid chunk type"@,
            ParsingError::InvalidChecksum => "Invalid chunk crc"@,
            ParsingError::ChecksumMismatch => "Chunk crc mismatch"@,
            ParsingError::InvalidHeaderSize => "Invalid header size"@,
            ParsingError::InvalidDimensions => "Invalid image dimensions"@,
            ParsingError::InvalidColorLayout => "Invalid color type and bit depth combination"@,
            ParsingError::DuplicateHeader => "More than one header chunk"@,
            ParsingError::DuplicatePalette => "More than one palette chunk"@,
            ParsingError::DuplicateEnd => "More than one end chunk"@,
            ParsingError::MissingHeader => "Missing header chunk"@,
            ParsingError::MissingEnd => "Missing end chunk"@,
            ParsingError::HeaderNotFirst => "Header chunk is not first"@,
            ParsingError::TrailingDataAfterEnd => "Data after the end chunk"@,
        }
    }

    /// The text shown to a user for this error.
    pub fn message(&self) -> (text: String)
        ensures
            text@ == self.spec_message(),
    {
        match self {
            ParsingError::SizeTooSmall => "Buffer size too small".to_owned(),
            ParsingError::InvalidLength => "Invalid chunk length".to_owned(),
            ParsingError::InvalidType => "Invalid chunk type".to_owned(),
            ParsingError::InvalidChecksum => "Invalid chunk crc".to_owned(),
            ParsingError::ChecksumMismatch => "Chunk crc mismatch".to_owned(),
            ParsingError::InvalidHeaderSize => "Invalid header size".to_owned(),
            ParsingError::InvalidDimensions => "Invalid image dimensions".to_owned(),
            ParsingError::InvalidColorLayout => {
                "Invalid color type and bit depth combination".to_owned()
            },
            ParsingError::DuplicateHeader => "More than one header chunk".to_owned(),
            ParsingError::DuplicatePalette => "More than one palette chunk".to_owned(),
            ParsingError::DuplicateEnd => "More than one end chunk".to_owned(),
            ParsingError::MissingHeader => "Missing header chunk".to_owned(),
            ParsingError::MissingEnd => "Missing end chunk".to_owned(),
            ParsingError::HeaderNotFirst => "Header chunk is not first".to_owned(),
            ParsingError::TrailingDataAfterEnd => "Data after the end chunk".to_owned(),
        }
    }
}

impl ImageError {
    /// The text shown to a user for this error: that of the error inside.
    pub open spec fn spec_message(self) -> Seq<char> {
        match self {
            ImageError::FileError(e) => e.spec_message(),
            ImageError::ParsingError(e) => e.spec_message(),
        }
    }

    /// The text shown to a user for this error.
    pub fn message(&self) -> (text: String)
        ensures
            text@ == self.spec_message(),
    {
        match self {
            ImageError::FileError(e) => e.message(),
            ImageError::ParsingError(e) => e.message(),
        }
    }
}

impl From<FileError> for ImageError {
    fn from(e: FileError) -> (r: Self) {
        ImageError::FileError(e)
    }
}

impl vstd::std_specs::convert::FromSpecImpl<FileError> for ImageError {
    open spec fn obeys_from_spec() -> bool {
        true
    }

    open spec fn from_spec(e: FileError) -> Self {
        ImageError::FileError(e)
    }
}

impl From<ParsingError> for ImageError {
    fn from(e: ParsingError) -> (r: Self) {
        ImageError::ParsingError(e)
    }
}

impl vstd::std_specs::convert::FromSpecImpl<ParsingError> for ImageError {
    open spec fn obeys_from_spec() -> bool {
        true
    }

    open spec fn from_spec(e: ParsingError) -> Self {
        ImageError::ParsingError(e)
    }
}

} // verus!
