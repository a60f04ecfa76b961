//! A PNG stream as the plain list of its chunks, in the order of the stream.

use crate::chunk::{chunk_views, spec_parse_chunks, Chunk, ChunkView};
use crate::errors::{FileError, ImageError, ParsingError};
use crate::parsed_chunks::{spec_decode_header, HeaderView, IHDRChunk};
use crate::signature::{has_signature, starts_with_signature};
use vstd::pervasive::unreached;
use vstd::prelude::*;

verus! {

/// What reading a whole buffer as a list of chunks gives. The signature is
/// judged first; what follows it must hold sixteen bytes or more, tiled by
/// chunks.
pub open spec fn spec_parse_image(buffer: Seq<u8>) -> Result<Seq<ChunkView>, ImageError> {
    if !has_signature(buffer) {
        Err(ImageError::FileError(FileError::NotRecognized))
    } else {
        match spec_parse_chunks(buffer.skip(8)) {
            Err(e) => Err(ImageError::ParsingError(e)),
            Ok(chunks) => Ok(chunks),
        }
    }
}

/// The chunks of a PNG stream, each with a verified checksum. There is at
/// least one.
#[derive(Debug, PartialEq, Eq)]
pub struct Image {
    chunks: Vec<Chunk>,
}

impl View for Image {
    type V = Seq<ChunkView>;

    closed spec fn view(&self) -> Seq<ChunkView> {
        chunk_views(self.chunks@)
    }
}

impl Image {
    #[verifier::type_invariant]
    closed spec fn inv(self) -> bool {
        &&& self.chunks@.len() > 0
        &&& forall|i: int| 0 <= i < self.chunks@.len() ==> (#[trigger] self.chunks@[i])@.wf()
    }

    /// Reads a whole buffer: the signature, then chunk after chunk to the
    /// end of the buffer.
    pub fn parse(bytes: &[u8]) -> (r: Result<Image, ImageError>)
        ensures
            match r {
                Ok(image) => spec_parse_image(bytes@) == Ok::<Seq<ChunkView>, ImageError>(image@)
                    && image@.len() > 0 && forall|i: int|
                    0 <= i < image@.len() ==> (#[trigger] image@[i]).wf(),
                Err(e) => spec_parse_image(bytes@) == Err::<Seq<ChunkView>, ImageError>(e),
            },
    {
        if !Image::is_png(bytes) {
            return Err(ImageError::FileError(FileError::NotRecognized));
        }
        let stream = &bytes[8..bytes.len()];
        assert(stream@ =~= bytes@.skip(8));
        match Chunk::parse_chunk(stream) {
            Err(e) => Err(ImageError::ParsingError(e)),
            Ok(chunks) => {
                assert forall|i: int| 0 <= i < chunks@.len() implies (#[trigger] chunk_views(
                    chunks@,
                )[i]).wf() by {
                    assert(chunk_views(chunks@)[i] == chunks@[i]@);
                }
                Ok(Image { chunks })
            },
        }
    }

    /// Tells whether `data` begins with the PNG signature.
    pub fn is_png(data: &[u8]) -> (r: bool)
        ensures
            r == has_signature(data@),
    {
        starts_with_signature(data)
    }

    /// The number of chunks.
    pub fn len(&self) -> (n: usize)
        ensures
            n == self@.len(),
            n > 0,
    {
        proof {
            use_type_invariant(self);
        }
        self.chunks.len()
    }

    /// The chunk at `index`, if there are that many.
    pub fn get(&self, index: usize) -> (chunk: Option<&Chunk>)
        ensures
            match chunk {
                Some(chunk) => index < self@.len() && chunk@ == self@[index as int] && chunk@.wf(),
                None => index >= self@.len(),
            },
    {
        proof {
            use_type_invariant(self);
        }
        if index < self.chunks.len() {
            Some(&self.chunks[index])
        } else {
            None
        }
    }

    /// The chunks, in the order of the stream.
    pub fn chunks(&self) -> (chunks: &[Chunk])
        ensures
            chunk_views(chunks@) == self@,
    {
        self.chunks.as_slice()
    }

    /// Gives up the image for its chunks, in the order of the stream.
    pub fn into_chunks(self) -> (chunks: Vec<Chunk>)
        ensures
            chunk_views(chunks@) == self@,
    {
        self.chunks
    }

    /// Decodes the header from the payload of the first chunk.
    pub fn get_ihdr(&self) -> (r: Result<IHDRChunk, ParsingError>)
        ensures
            self@.len() > 0,
            match r {
                Ok(header) => spec_decode_header(self@[0].data) == Ok::<HeaderView, ParsingError>(
                    header@,
                ),
                Err(e) => spec_decode_header(self@[0].data) == Err::<HeaderView, ParsingError>(e),
            },
    {
        proof {
            use_type_invariant(self);
        }
        IHDRChunk::from_chunk(&self.chunks[0])
    }

    /// The header in the payload of the first chunk, for an image whose
    /// first chunk is known to carry one.
    pub fn ihdr_parse(&self) -> (header: IHDRChunk)
        requires
            self@.len() > 0 ==> spec_decode_header(self@[0].data) is Ok,
        ensures
            self@.len() > 0,
            spec_decode_header(self@[0].data) == Ok::<HeaderView, ParsingError>(header@),
    {
        match self.get_ihdr() {
            Ok(header) => header,
            Err(_) => unreached(),
        }
    }
}

} // verus!
