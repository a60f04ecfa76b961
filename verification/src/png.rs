//! The container: a whole PNG stream, walked chunk by chunk, validated, and
//! sorted by the role of each chunk.

use crate::chunk::{chunk_views, lemma_decode_wf, spec_decode, Chunk, ChunkType, ChunkView};
use crate::errors::{FileError, ImageError, ParsingError};
use crate::parsed_chunks::{lemma_decoded_header_wf, spec_decode_header, HeaderView, IHDRChunk};
use crate::signature::{has_signature, header_chunk_prefix, starts_with_signature};
use vstd::prelude::*;

verus! {

/// The chunks of a stream seen so far, sorted by role, as a mathematical
/// value.
pub struct BuilderView {
    /// The decoded header, once the header chunk was seen.
    pub header: Option<HeaderView>,
    /// The palette chunk, once it was seen.
    pub palette: Option<ChunkView>,
    /// The image-data chunks, in the order of the stream.
    pub image_data: Seq<ChunkView>,
    /// The end chunk, once it was seen.
    pub end: Option<ChunkView>,
    /// The ancillary chunks, in the order of the stream.
    pub ancillary: Seq<ChunkView>,
}

/// A validated stream as a mathematical value.
pub struct PngView {
    /// The decoded header.
    pub header: HeaderView,
    /// The palette chunk, if the stream has one.
    pub palette: Option<ChunkView>,
    /// The image-data chunks, in the order of the stream.
    pub image_data: Seq<ChunkView>,
    /// The end chunk.
    pub end: ChunkView,
    /// The ancillary chunks, in the order of the stream.
    pub ancillary: Seq<ChunkView>,
}

impl PngView {
    /// Every chunk of a container is stored under its own role, and the
    /// header has dimensions that are not zero.
    pub open spec fn wf(self) -> bool {
        &&& self.header.wf()
        &&& self.palette matches Some(chunk) ==> chunk.class is PLTE
        &&& forall|i: int|
            0 <= i < self.image_data.len() ==> (#[trigger] self.image_data[i]).class is IDAT
        &&& self.end.class is IEND
        &&& forall|i: int|
            0 <= i < self.ancillary.len() ==> (#[trigger] self.ancillary[i]).class is Ancillary
    }

    /// Every chunk of the container is well formed: it stores the checksum
    /// of its type code and payload.
    pub open spec fn checked(self) -> bool {
        &&& self.palette matches Some(chunk) ==> chunk.wf()
        &&& forall|i: int|
            0 <= i < self.image_data.len() ==> (#[trigger] self.image_data[i]).wf()
        &&& self.end.wf()
        &&& forall|i: int| 0 <= i < self.ancillary.len() ==> (#[trigger] self.ancillary[i]).wf()
    }
}

impl BuilderView {
    /// Every chunk seen so far is stored under its own role, the header has
    /// dimensions that are not zero, and nothing is stored before the
    /// header.
    pub open spec fn wf(self) -> bool {
        &&& self.header matches Some(header) ==> header.wf()
        &&& self.palette matches Some(chunk) ==> chunk.class is PLTE
        &&& forall|i: int|
            0 <= i < self.image_data.len() ==> (#[trigger] self.image_data[i]).class is IDAT
        &&& self.end matches Some(chunk) ==> chunk.class is IEND
        &&& forall|i: int|
            0 <= i < self.ancillary.len() ==> (#[trigger] self.ancillary[i]).class is Ancillary
        &&& self.header is None ==> self == BuilderView::empty()
    }

    /// Every chunk seen so far is well formed.
    pub open spec fn checked(self) -> bool {
        &&& self.palette matches Some(chunk) ==> chunk.wf()
        &&& forall|i: int|
            0 <= i < self.image_data.len() ==> (#[trigger] self.image_data[i]).wf()
        &&& self.end matches Some(chunk) ==> chunk.wf()
        &&& forall|i: int| 0 <= i < self.ancillary.len() ==> (#[trigger] self.ancillary[i]).wf()
    }

    /// The state before any chunk.
    pub open spec fn empty() -> BuilderView {
        BuilderView {
            header: None,
            palette: None,
            image_data: Seq::empty(),
            end: None,
            ancillary: Seq::empty(),
        }
    }

    /// What taking the next chunk of the stream does to the state.
    ///
    /// The first chunk must be the header, and its payload must decode. Once
    /// the end chunk is stored nothing is taken any more: a second end chunk
    /// is `DuplicateEnd`, any other chunk is `TrailingDataAfterEnd`. Between
    /// the two, a second header or palette is refused, and every other chunk
    /// is stored by its role.
    pub open spec fn push(self, chunk: ChunkView) -> Result<BuilderView, ParsingError> {
        if self.header is None {
            if chunk.class is IHDR {
                match spec_decode_header(chunk.data) {
                    Ok(header) => Ok(BuilderView { header: Some(header), ..self }),
                    Err(e) => Err(e),
                }
            } else {
                Err(ParsingError::HeaderNotFirst)
            }
        } else if self.end is Some {
            if chunk.class is IEND {
                Err(ParsingError::DuplicateEnd)
            } else {
                Err(ParsingError::TrailingDataAfterEnd)
            }
        } else {
            match chunk.class {
                ChunkType::IHDR => Err(ParsingError::DuplicateHeader),
                ChunkType::PLTE => if self.palette is Some {
                    Err(ParsingError::DuplicatePalette)
                } else {
                    Ok(BuilderView { palette: Some(chunk), ..self })
                },
                ChunkType::IDAT => Ok(
                    BuilderView { image_data: self.image_data.push(chunk), ..self },
                ),
                ChunkType::IEND => Ok(BuilderView { end: Some(chunk), ..self }),
                ChunkType::Ancillary(_) => Ok(
                    BuilderView { ancillary: self.ancillary.push(chunk), ..self },
                ),
            }
        }
    }

    /// What the state amounts to when the stream is over: a container, if
    /// header and end chunk were seen.
    pub open spec fn finish(self) -> Result<PngView, ParsingError> {
        if self.header is None {
            Err(ParsingError::MissingHeader)
        } else if self.end is None {
            Err(ParsingError::MissingEnd)
        } else {
            Ok(
                PngView {
                    header: self.header->Some_0,
                    palette: self.palette,
                    image_data: self.image_data,
                    end: self.end->Some_0,
                    ancillary: self.ancillary,
                },
            )
        }
    }
}

/// What walking the bytes `s` from the state `state` gives: the state once
/// nothing remains, or the first error. Bytes that remain after the end
/// chunk are an error before anything is decoded from them.
pub open spec fn spec_walk(s: Seq<u8>, state: BuilderView) -> Result<BuilderView, ParsingError>
    decreases s.len(),
{
    if s.len() == 0 {
        Ok(state)
    } else if state.end is Some {
        Err(ParsingError::TrailingDataAfterEnd)
    } else {
        match spec_decode(s) {
            Err(e) => Err(e),
            Ok(chunk) => match state.push(chunk) {
                Err(e) => Err(e),
                Ok(next) => spec_walk(s.skip(chunk.encoded_len() as int), next),
            },
        }
    }
}

/// What parsing a whole buffer gives: the container, or the first error.
pub open spec fn spec_parse(buffer: Seq<u8>) -> Result<PngView, ImageError> {
    if !has_signature(buffer) {
        Err(ImageError::FileError(FileError::NotRecognized))
    } else {
        match spec_walk(buffer.skip(8), BuilderView::empty()) {
            Err(e) => Err(ImageError::ParsingError(e)),
            Ok(state) => match state.finish() {
                Err(e) => Err(ImageError::ParsingError(e)),
                Ok(png) => Ok(png),
            },
        }
    }
}

/// Collects the chunks of a stream one by one and enforces their order: the
/// header first and once, the palette at most once, nothing after the end.
pub struct PngBuilder {
    ihdr: Option<IHDRChunk>,
    plte: Option<Chunk>,
    idat: Vec<Chunk>,
    iend: Option<Chunk>,
    ancillary_chunks: Vec<Chunk>,
}

impl View for PngBuilder {
    type V = BuilderView;

    closed spec fn view(&self) -> BuilderView {
        BuilderView {
            header: match self.ihdr {
                Some(header) => Some(header@),
                None => None,
            },
            palette: match self.plte {
                Some(chunk) => Some(chunk@),
                None => None,
            },
            image_data: chunk_views(self.idat@),
            end: match self.iend {
                Some(chunk) => Some(chunk@),
                None => None,
            },
            ancillary: chunk_views(self.ancillary_chunks@),
        }
    }
}

impl PngBuilder {
    #[verifier::type_invariant]
    closed spec fn inv(self) -> bool {
        self@.wf()
    }

    /// A builder that has seen no chunk.
    pub fn new() -> (builder: PngBuilder)
        ensures
            builder@ == BuilderView::empty(),
    {
        let idat: Vec<Chunk> = Vec::new();
        let ancillary_chunks: Vec<Chunk> = Vec::new();
        assert(chunk_views(idat@) =~= Seq::<ChunkView>::empty());
        assert(chunk_views(ancillary_chunks@) =~= Seq::<ChunkView>::empty());
        PngBuilder { ihdr: None, plte: None, idat, iend: None, ancillary_chunks }
    }

    /// Whether the end chunk was seen.
    pub fn is_ended(&self) -> (ended: bool)
        ensures
            ended == (self@.end is Some),
            self@.wf(),
    {
        proof {
            use_type_invariant(self);
        }
        self.iend.is_some()
    }

    /// Takes the next chunk of the stream, or refuses it.
    pub fn push(self, chunk: Chunk) -> (r: Result<PngBuilder, ParsingError>)
        ensures
            match r {
                Ok(next) => self@.push(chunk@) == Ok::<BuilderView, ParsingError>(next@),
                Err(e) => self@.push(chunk@) == Err::<BuilderView, ParsingError>(e),
            },
    {
        proof {
            use_type_invariant(&self);
        }
        let PngBuilder { ihdr, plte, mut idat, iend, mut ancillary_chunks } = self;
        let class = chunk.get_class();
        if ihdr.is_none() {
            return match class {
                ChunkType::IHDR => match IHDRChunk::from_chunk(&chunk) {
                    Ok(header) => {
                        proof {
                            lemma_decoded_header_wf(chunk@.data);
                        }
                        Ok(PngBuilder { ihdr: Some(header), plte, idat, iend, ancillary_chunks })
                    },
                    Err(e) => Err(e),
                },
                _ => Err(ParsingError::HeaderNotFirst),
            };
        }
        if iend.is_some() {
            return match class {
                ChunkType::IEND => Err(ParsingError::DuplicateEnd),
                _ => Err(ParsingError::TrailingDataAfterEnd),
            };
        }
        match class {
            ChunkType::IHDR => Err(ParsingError::DuplicateHeader),
            ChunkType::PLTE => {
                if plte.is_some() {
                    Err(ParsingError::DuplicatePalette)
                } else {
                    Ok(PngBuilder { ihdr, plte: Some(chunk), idat, iend, ancillary_chunks })
                }
            },
            ChunkType::IDAT => {
                assert(chunk_views(idat@.push(chunk)) =~= chunk_views(idat@).push(chunk@));
                idat.push(chunk);
                Ok(PngBuilder { ihdr, plte, idat, iend, ancillary_chunks })
            },
            ChunkType::IEND => Ok(
                PngBuilder { ihdr, plte, idat, iend: Some(chunk), ancillary_chunks },
            ),
            ChunkType::Ancillary(_) => {
                assert(chunk_views(ancillary_chunks@.push(chunk)) =~= chunk_views(
                    ancillary_chunks@,
                ).push(chunk@));
                ancillary_chunks.push(chunk);
                Ok(PngBuilder { ihdr, plte, idat, iend, ancillary_chunks })
            },
        }
    }

    /// Ends the stream: gives the container, if header and end chunk were
    /// seen.
    pub fn build(self) -> (r: Result<Png, ParsingError>)
        ensures
            match r {
                Ok(png) => self@.finish() == Ok::<PngView, ParsingError>(png@),
                Err(e) => self@.finish() == Err::<PngView, ParsingError>(e),
            },
    {
        proof {
            use_type_invariant(&self);
        }
        let PngBuilder { ihdr, plte, idat, iend, ancillary_chunks } = self;
        match ihdr {
            None => Err(ParsingError::MissingHeader),
            Some(ihdr) => match iend {
                None => Err(ParsingError::MissingEnd),
                Some(iend) => Ok(Png { ihdr, plte, idat, iend, ancillary_chunks }),
            },
        }
    }
}

/// A validated PNG stream: the decoded header and the chunks by role.
#[derive(Debug)]
pub struct Png {
    ihdr: IHDRChunk,
    plte: Option<Chunk>,
    idat: Vec<Chunk>,
    iend: Chunk,
    ancillary_chunks: Vec<Chunk>,
}

impl View for Png {
    type V = PngView;

    closed spec fn view(&self) -> PngView {
        PngView {
            header: self.ihdr@,
            palette: match self.plte {
                Some(chunk) => Some(chunk@),
                None => None,
            },
            image_data: chunk_views(self.idat@),
            end: self.iend@,
            ancillary: chunk_views(self.ancillary_chunks@),
        }
    }
}

impl Png {
    #[verifier::type_invariant]
    closed spec fn inv(self) -> bool {
        self@.wf()
    }

    /// Parses a whole buffer: the signature, then chunk after chunk to the
    /// end of the buffer. Every chunk of the container that comes back
    /// stores the checksum of its type code and payload.
    pub fn parse(bytes: &[u8]) -> (r: Result<Png, ImageError>)
        ensures
            match r {
                Ok(png) => spec_parse(bytes@) == Ok::<PngView, ImageError>(png@) && png@.wf()
                    && png@.checked(),
                Err(e) => spec_parse(bytes@) == Err::<PngView, ImageError>(e),
            },
    {
        if !starts_with_signature(bytes) {
            return Err(ImageError::FileError(FileError::NotRecognized));
        }
        let mut builder = PngBuilder::new();
        let mut offset: usize = 8;
        while offset < bytes.len()
            invariant
                has_signature(bytes@),
                8 <= offset <= bytes@.len(),
                spec_walk(bytes@.skip(8), BuilderView::empty()) == spec_walk(
                    bytes@.skip(offset as int),
                    builder@,
                ),
            decreases bytes@.len() - offset,
        {
            if builder.is_ended() {
                return Err(ImageError::ParsingError(ParsingError::TrailingDataAfterEnd));
            }
            let rest = &bytes[offset..bytes.len()];
            assert(rest@ =~= bytes@.skip(offset as int));
            match Chunk::parse(rest) {
                Err(e) => {
                    return Err(ImageError::ParsingError(e));
                },
                Ok((chunk, used)) => {
                    assert(rest@.skip(used as int) =~= bytes@.skip(offset + used));
                    match builder.push(chunk) {
                        Err(e) => {
                            return Err(ImageError::ParsingError(e));
                        },
                        Ok(next) => {
                            builder = next;
                        },
                    }
                    offset = offset + used;
                },
            }
        }
        match builder.build() {
            Err(e) => Err(ImageError::ParsingError(e)),
            Ok(png) => {
                proof {
                    lemma_parse_wf(bytes@);
                }
                Ok(png)
            },
        }
    }

    /// Tells whether `data` begins like a PNG stream: with the signature and
    /// the first eight bytes of a header chunk.
    pub fn is_valid(data: &[u8]) -> (valid: bool)
        ensures
            valid == (has_signature(data@) && data@.len() >= 16 && data@.subrange(8, 16)
                == header_chunk_prefix()),
    {
        if data.len() < 16 || !starts_with_signature(data) {
            return false;
        }
        let valid = data[8] == 0 && data[9] == 0 && data[10] == 0 && data[11] == 13 && data[12]
            == 73 && data[13] == 72 && data[14] == 68 && data[15] == 82;
        proof {
            let window = data@.subrange(8, 16);
            if valid {
                assert(window =~= header_chunk_prefix());
            } else {
                assert(window[0] == data@[8] && window[1] == data@[9] && window[2] == data@[10]
                    && window[3] == data@[11] && window[4] == data@[12] && window[5] == data@[13]
                    && window[6] == data@[14] && window[7] == data@[15]);
            }
        }
        valid
    }

    /// The decoded header.
    pub fn get_ihdr(&self) -> (header: &IHDRChunk)
        ensures
            header@ == self@.header,
            header@.wf(),
    {
        proof {
            use_type_invariant(self);
        }
        &self.ihdr
    }

    /// The palette chunk, if the stream has one.
    pub fn get_plte(&self) -> (palette: Option<&Chunk>)
        ensures
            match palette {
                Some(chunk) => self@.palette == Some(chunk@) && chunk@.class is PLTE,
                None => self@.palette is None,
            },
    {
        proof {
            use_type_invariant(self);
        }
        self.plte.as_ref()
    }

    /// The image-data chunks, in the order of the stream.
    pub fn get_idat(&self) -> (chunks: &[Chunk])
        ensures
            chunk_views(chunks@) == self@.image_data,
            forall|i: int| 0 <= i < chunks@.len() ==> (#[trigger] chunks@[i])@.class is IDAT,
    {
        proof {
            use_type_invariant(self);
            assert forall|i: int| 0 <= i < self.idat@.len()
                implies (#[trigger] self.idat@[i])@.class is IDAT by {
                assert(chunk_views(self.idat@)[i] == self.idat@[i]@);
            }
        }
        self.idat.as_slice()
    }

    /// The end chunk.
    pub fn get_iend(&self) -> (end: &Chunk)
        ensures
            end@ == self@.end,
            end@.class is IEND,
    {
        proof {
            use_type_invariant(self);
        }
        &self.iend
    }

    /// The ancillary chunks, in the order of the stream.
    pub fn get_ancillary_chunks(&self) -> (chunks: &[Chunk])
        ensures
            chunk_views(chunks@) == self@.ancillary,
            forall|i: int| 0 <= i < chunks@.len() ==> (#[trigger] chunks@[i])@.class is Ancillary,
    {
        proof {
            use_type_invariant(self);
            assert forall|i: int| 0 <= i < self.ancillary_chunks@.len()
                implies (#[trigger] self.ancillary_chunks@[i])@.class is Ancillary by {
                assert(chunk_views(self.ancillary_chunks@)[i] == self.ancillary_chunks@[i]@);
            }
        }
        self.ancillary_chunks.as_slice()
    }
}

/// Taking a chunk keeps the state well formed, and keeps its chunks well
/// formed if the chunk is.
pub proof fn lemma_push_keeps_wf(state: BuilderView, chunk: ChunkView)
    requires
        state.wf(),
        state.push(chunk) is Ok,
    ensures
        state.push(chunk)->Ok_0.wf(),
        state.checked() && chunk.wf() ==> state.push(chunk)->Ok_0.checked(),
{
    if state.header is None {
        lemma_decoded_header_wf(chunk.data);
    }
}

/// A walk keeps the state well formed and its chunks well formed.
pub proof fn lemma_walk_keeps_wf(s: Seq<u8>, state: BuilderView)
    requires
        state.wf(),
        state.checked(),
        spec_walk(s, state) is Ok,
    ensures
        spec_walk(s, state)->Ok_0.wf(),
        spec_walk(s, state)->Ok_0.checked(),
    decreases s.len(),
{
    if s.len() > 0 {
        let chunk = spec_decode(s)->Ok_0;
        lemma_decode_wf(s);
        lemma_push_keeps_wf(state, chunk);
        lemma_walk_keeps_wf(s.skip(chunk.encoded_len() as int), state.push(chunk)->Ok_0);
    }
}

/// The container that parsing gives is well formed, and so is each of its
/// chunks.
pub proof fn lemma_parse_wf(buffer: Seq<u8>)
    requires
        spec_parse(buffer) is Ok,
    ensures
        spec_parse(buffer)->Ok_0.wf(),
        spec_parse(buffer)->Ok_0.checked(),
{
    lemma_walk_keeps_wf(buffer.skip(8), BuilderView::empty());
}

} // verus!
