//! Chunks: the length-prefixed, type-tagged, checksummed records of a PNG
//! stream, and the decoder that reads one from a byte slice.

use crate::big_endian::{
    lemma_u32_be_bytes_round_trip, lemma_u32_be_injective, lemma_u32_be_round_trip, read_u32_be,
    spec_u32_from_be_bytes, spec_u32_to_be_bytes,
};
use crate::checksum::{crc32, lemma_crc32_detects_changed_byte, verify};
use crate::constants::{
    CRC_SIZE_OFFSET, LENGTH_SIZE_OFFSET, MIN_STREAM_SIZE, TYPE_SIZE_OFFSET,
};
use crate::errors::ParsingError;
use vstd::prelude::*;
use vstd::slice::slice_to_vec;

verus! {

/// The type code of the header chunk, `IHDR`.
pub const IHDR_CODE: [u8; 4] = [73, 72, 68, 82];

/// The type code of the palette chunk, `PLTE`.
pub const PLTE_CODE: [u8; 4] = [80, 76, 84, 69];

/// The type code of an image-data chunk, `IDAT`.
pub const IDAT_CODE: [u8; 4] = [73, 68, 65, 84];

/// The type code of the end chunk, `IEND`.
pub const IEND_CODE: [u8; 4] = [73, 69, 78, 68];

/// What a chunk is for: one of the four critical roles, or an ancillary
/// chunk, which keeps its code.
#[derive(Debug, PartialEq, Eq, Copy, Clone)]
pub enum ChunkType {
    /// The image header.
    IHDR,
    /// The palette.
    PLTE,
    /// A part of the compressed image data.
    IDAT,
    /// The end of the stream.
    IEND,
    /// Any other chunk, with its four-byte code.
    Ancillary([u8; 4]),
}

impl ChunkType {
    /// The four bytes that stand for this type in a stream.
    pub open spec fn code(self) -> Seq<u8> {
        match self {
            ChunkType::IHDR => IHDR_CODE@,
            ChunkType::PLTE => PLTE_CODE@,
            ChunkType::IDAT => IDAT_CODE@,
            ChunkType::IEND => IEND_CODE@,
            ChunkType::Ancillary(code) => code@,
        }
    }

    /// The type that a four-byte code stands for: a critical type where the
    /// bytes match its code exactly, else an ancillary type with these bytes.
    pub open spec fn classify(code: Seq<u8>) -> ChunkType
        recommends
            code.len() == 4,
    {
        if code == IHDR_CODE@ {
            ChunkType::IHDR
        } else if code == PLTE_CODE@ {
            ChunkType::PLTE
        } else if code == IDAT_CODE@ {
            ChunkType::IDAT
        } else if code == IEND_CODE@ {
            ChunkType::IEND
        } else {
            ChunkType::Ancillary([code[0], code[1], code[2], code[3]])
        }
    }

    /// A type is well formed when it is the type of its own code: an
    /// ancillary type never carries the code of a critical one.
    pub open spec fn wf(self) -> bool {
        ChunkType::classify(self.code()) == self
    }

    /// Whether this is one of the four critical types.
    pub open spec fn spec_is_critical(self) -> bool {
        !(self is Ancillary)
    }

    /// The type that `bytes` stand for. Every four bytes stand for a type;
    /// any other number of bytes is refused with `InvalidType`.
    pub fn from_bytes(bytes: &[u8]) -> (r: Result<ChunkType, ParsingError>)
        ensures
            bytes@.len() == 4 ==> r == Ok::<ChunkType, ParsingError>(ChunkType::classify(bytes@)),
            bytes@.len() != 4 ==> r == Err::<ChunkType, ParsingError>(ParsingError::InvalidType),
    {
        if bytes.len() != 4 {
            return Err(ParsingError::InvalidType);
        }
        let code: [u8; 4] = [bytes[0], bytes[1], bytes[2], bytes[3]];
        assert(code@ =~= bytes@);
        Ok(ChunkType::from_code(code))
    }

    /// The type that a four-byte code stands for.
    pub fn from_code(code: [u8; 4]) -> (class: ChunkType)
        ensures
            class == ChunkType::classify(code@),
            class.code() == code@,
            class.wf(),
    {
        let class = if same_code(&code, &IHDR_CODE) {
            ChunkType::IHDR
        } else if same_code(&code, &PLTE_CODE) {
            ChunkType::PLTE
        } else if same_code(&code, &IDAT_CODE) {
            ChunkType::IDAT
        } else if same_code(&code, &IEND_CODE) {
            ChunkType::IEND
        } else {
            ChunkType::Ancillary(code)
        };
        proof {
            let rebuilt: [u8; 4] = [code@[0], code@[1], code@[2], code@[3]];
            assert(rebuilt@ =~= code@);
            assert(rebuilt == code);
        }
        class
    }

    /// The four bytes that stand for this type in a stream.
    pub fn to_bytes(&self) -> (code: [u8; 4])
        ensures
            code@ == self.code(),
    {
        match self {
            ChunkType::IHDR => IHDR_CODE,
            ChunkType::PLTE => PLTE_CODE,
            ChunkType::IDAT => IDAT_CODE,
            ChunkType::IEND => IEND_CODE,
            ChunkType::Ancillary(code) => *code,
        }
    }

    /// The name of the type for display: its code, byte by byte, each byte
    /// as the character of that number.
    pub open spec fn spec_name(self) -> Seq<char> {
        self.code().map_values(|b: u8| b as char)
    }

    /// The name of the type for display.
    pub fn as_str(&self) -> (name: String)
        ensures
            name@ == self.spec_name(),
    {
        let code = self.to_bytes();
        let mut name = String::new();
        push_char(&mut name, code[0] as char);
        push_char(&mut name, code[1] as char);
        push_char(&mut name, code[2] as char);
        push_char(&mut name, code[3] as char);
        assert(name@ =~= self.spec_name());
        name
    }

    /// Whether this is one of the four critical types.
    pub fn is_critical(&self) -> (critical: bool)
        ensures
            critical == self.spec_is_critical(),
    {
        match self {
            ChunkType::Ancillary(_) => false,
            _ => true,
        }
    }

    /// Whether this is an ancillary type.
    pub fn is_ancillary(&self) -> (ancillary: bool)
        ensures
            ancillary == !self.spec_is_critical(),
    {
        !self.is_critical()
    }
}

/// `String::push` of std appends one character to a string.
#[verifier::external_body]
fn push_char(text: &mut String, c: char)
    ensures
        final(text)@ == old(text)@.push(c),
{
    text.push(c);
}

fn same_code(a: &[u8; 4], b: &[u8; 4]) -> (same: bool)
    ensures
        same == (a@ == b@),
{
    let same = a[0] == b[0] && a[1] == b[1] && a[2] == b[2] && a[3] == b[3];
    proof {
        if same {
            assert(a@ =~= b@);
        }
    }
    same
}

/// Every four-byte code stands for a well-formed type, and that type gives
/// the code back.
pub proof fn lemma_classify_code(code: Seq<u8>)
    requires
        code.len() == 4,
    ensures
        ChunkType::classify(code).code() == code,
        ChunkType::classify(code).wf(),
{
    let rebuilt: [u8; 4] = [code[0], code[1], code[2], code[3]];
    assert(rebuilt@ =~= code);
}

/// One chunk of a stream.
#[derive(Debug, PartialEq, Eq)]
pub struct Chunk {
    length: usize,
    class: ChunkType,
    data: Vec<u8>,
    crc: u32,
}

/// A chunk as a mathematical value.
pub struct ChunkView {
    /// The payload length that the stream declares.
    pub length: nat,
    /// The type.
    pub class: ChunkType,
    /// The payload.
    pub data: Seq<u8>,
    /// The checksum that the stream stores.
    pub crc: u32,
}

impl ChunkView {
    /// The checksum that a chunk of this type and payload must store.
    pub open spec fn checksum(self) -> u32 {
        crc32(self.class.code() + self.data)
    }

    /// A chunk is well formed when the declared length is the payload's
    /// length and fits the length field, the type is well formed, and the
    /// stored checksum is the checksum of type code and payload.
    pub open spec fn wf(self) -> bool {
        &&& self.length == self.data.len()
        &&& self.length <= u32::MAX
        &&& self.class.wf()
        &&& self.crc == self.checksum()
    }

    /// The number of bytes that the chunk takes in a stream.
    pub open spec fn encoded_len(self) -> nat {
        12 + self.length
    }

    /// The bytes of the chunk in a stream: length, type code, payload,
    /// checksum.
    pub open spec fn encode(self) -> Seq<u8> {
        spec_u32_to_be_bytes(self.length as u32) + self.class.code() + self.data
            + spec_u32_to_be_bytes(self.crc)
    }
}

impl View for Chunk {
    type V = ChunkView;

    closed spec fn view(&self) -> ChunkView {
        ChunkView {
            length: self.length as nat,
            class: self.class,
            data: self.data@,
            crc: self.crc,
        }
    }
}

impl Clone for Chunk {
    fn clone(&self) -> (copy: Self)
        ensures
            copy@ == self@,
    {
        Chunk { length: self.length, class: self.class, data: self.data.clone(), crc: self.crc }
    }
}

/// What decoding one chunk from the front of `s` gives: the chunk, or the
/// reason why there is none.
pub open spec fn spec_decode(s: Seq<u8>) -> Result<ChunkView, ParsingError> {
    if s.len() < 12 {
        Err(ParsingError::SizeTooSmall)
    } else {
        let length = spec_u32_from_be_bytes(s.subrange(0, 4)) as nat;
        if s.len() < 8 + length {
            Err(ParsingError::InvalidLength)
        } else if s.len() < 12 + length {
            Err(ParsingError::InvalidChecksum)
        } else {
            let code = s.subrange(4, 8);
            let data = s.subrange(8, 8 + length as int);
            let crc = spec_u32_from_be_bytes(s.subrange(8 + length as int, 12 + length as int));
            if crc != crc32(code + data) {
                Err(ParsingError::ChecksumMismatch)
            } else {
                Ok(ChunkView { length, class: ChunkType::classify(code), data, crc })
            }
        }
    }
}

/// The chunks of a sequence of chunks, each as its mathematical value.
pub open spec fn chunk_views(chunks: Seq<Chunk>) -> Seq<ChunkView> {
    chunks.map_values(|chunk: Chunk| chunk@)
}

/// The chunks that tile `s`, in order: each begins where the one before
/// ends, and the last ends where `s` ends. Where a chunk does not decode,
/// the error of the first such chunk.
pub open spec fn spec_decode_all(s: Seq<u8>) -> Result<Seq<ChunkView>, ParsingError>
    decreases s.len(),
{
    if s.len() == 0 {
        Ok(Seq::empty())
    } else {
        match spec_decode(s) {
            Err(e) => Err(e),
            Ok(chunk) => spec_after(
                seq![chunk],
                spec_decode_all(s.skip(chunk.encoded_len() as int)),
            ),
        }
    }
}

/// What decoding a stream without its signature gives: a stream of fewer
/// than sixteen bytes is too small to be looked at; any other must be tiled
/// by its chunks.
pub open spec fn spec_parse_chunks(s: Seq<u8>) -> Result<Seq<ChunkView>, ParsingError> {
    if s.len() < 16 {
        Err(ParsingError::SizeTooSmall)
    } else {
        spec_decode_all(s)
    }
}

/// The bytes of a sequence of chunks, one after the other.
pub open spec fn spec_encode_all(chunks: Seq<ChunkView>) -> Seq<u8>
    decreases chunks.len(),
{
    if chunks.len() == 0 {
        Seq::empty()
    } else {
        chunks[0].encode() + spec_encode_all(chunks.skip(1))
    }
}

/// The chunks `done` followed by the chunks of `rest`, or the error of
/// `rest`.
pub open spec fn spec_after(done: Seq<ChunkView>, rest: Result<Seq<ChunkView>, ParsingError>)
    -> Result<Seq<ChunkView>, ParsingError> {
    match rest {
        Ok(chunks) => Ok(done + chunks),
        Err(e) => Err(e),
    }
}

impl Chunk {
    /// A chunk with these four fields, taken as they are.
    pub fn new(length: usize, class: ChunkType, data: Vec<u8>, crc: u32) -> (chunk: Self)
        ensures
            chunk@ == (ChunkView { length: length as nat, class, data: data@, crc }),
    {
        Chunk { length, class, data, crc }
    }

    /// Decodes the chunk at the front of `bytes` and tells how many bytes it
    /// takes. The checksum is verified: a chunk that comes back is well
    /// formed.
    pub fn parse(bytes: &[u8]) -> (r: Result<(Chunk, usize), ParsingError>)
        ensures
            match r {
                Ok((chunk, used)) => spec_decode(bytes@) == Ok::<ChunkView, ParsingError>(chunk@)
                    && used == chunk@.encoded_len() && used <= bytes@.len() && chunk@.wf(),
                Err(e) => spec_decode(bytes@) == Err::<ChunkView, ParsingError>(e),
            },
    {
        proof {
            if spec_decode(bytes@) is Ok {
                lemma_decode_wf(bytes@);
            }
        }
        if bytes.len() < CRC_SIZE_OFFSET {
            return Err(ParsingError::SizeTooSmall);
        }
        let length: usize = read_u32_be(bytes, 0) as usize;
        let data_end: usize = match TYPE_SIZE_OFFSET.checked_add(length) {
            Some(end) => end,
            None => {
                return Err(ParsingError::InvalidLength);
            },
        };
        if bytes.len() < data_end {
            return Err(ParsingError::InvalidLength);
        }
        if bytes.len() - data_end < CRC_SIZE_OFFSET - TYPE_SIZE_OFFSET {
            return Err(ParsingError::InvalidChecksum);
        }
        let type_bytes = &bytes[LENGTH_SIZE_OFFSET..TYPE_SIZE_OFFSET];
        let data = &bytes[TYPE_SIZE_OFFSET..data_end];
        let crc: u32 = read_u32_be(bytes, data_end);
        if !verify(crc, type_bytes, data) {
            return Err(ParsingError::ChecksumMismatch);
        }
        let code: [u8; 4] = [type_bytes[0], type_bytes[1], type_bytes[2], type_bytes[3]];
        assert(code@ =~= type_bytes@);
        let chunk = Chunk::new(length, ChunkType::from_code(code), slice_to_vec(data), crc);
        Ok((chunk, data_end + (CRC_SIZE_OFFSET - TYPE_SIZE_OFFSET)))
    }

    /// Decodes every chunk of `bytes`, a stream without its signature, in
    /// the order of the stream. The stream must hold sixteen bytes or more,
    /// and the chunks must tile it exactly. There is at least one chunk
    /// then, and each is well formed.
    pub fn parse_chunk(bytes: &[u8]) -> (r: Result<Vec<Chunk>, ParsingError>)
        ensures
            match r {
                Ok(chunks) => spec_parse_chunks(bytes@) == Ok::<Seq<ChunkView>, ParsingError>(
                    chunk_views(chunks@),
                ) && chunks@.len() > 0 && forall|i: int|
                    0 <= i < chunks@.len() ==> (#[trigger] chunks@[i])@.wf(),
                Err(e) => spec_parse_chunks(bytes@) == Err::<Seq<ChunkView>, ParsingError>(e),
            },
    {
        if bytes.len() < MIN_STREAM_SIZE {
            return Err(ParsingError::SizeTooSmall);
        }
        let mut chunks: Vec<Chunk> = Vec::new();
        let mut offset: usize = 0;
        proof {
            assert(bytes@.skip(0) =~= bytes@);
            lemma_after_empty(spec_decode_all(bytes@));
            assert(chunk_views(chunks@) =~= Seq::<ChunkView>::empty());
        }
        while offset < bytes.len()
            invariant
                bytes@.len() >= 16,
                offset <= bytes@.len(),
                spec_decode_all(bytes@) == spec_after(
                    chunk_views(chunks@),
                    spec_decode_all(bytes@.skip(offset as int)),
                ),
            decreases bytes@.len() - offset,
        {
            let rest = &bytes[offset..bytes.len()];
            assert(rest@ =~= bytes@.skip(offset as int));
            match Chunk::parse(rest) {
                Err(e) => {
                    return Err(e);
                },
                Ok((chunk, used)) => {
                    proof {
                        assert(rest@.skip(used as int) =~= bytes@.skip(offset + used));
                        assert(chunk_views(chunks@.push(chunk)) =~= chunk_views(chunks@).push(
                            chunk@,
                        ));
                        lemma_after_after(
                            chunk_views(chunks@),
                            chunk@,
                            spec_decode_all(bytes@.skip(offset + used)),
                        );
                    }
                    chunks.push(chunk);
                    offset = offset + used;
                },
            }
        }
        proof {
            assert(chunk_views(chunks@) + Seq::<ChunkView>::empty() =~= chunk_views(chunks@));
            lemma_decode_all_first(bytes@);
            lemma_decode_all_tiles(bytes@);
            assert forall|i: int| 0 <= i < chunks@.len() implies (#[trigger] chunks@[i])@.wf() by {
                assert(chunk_views(chunks@)[i] == chunks@[i]@);
            }
        }
        Ok(chunks)
    }

    /// The payload length that the stream declared.
    pub fn get_length(&self) -> (length: usize)
        ensures
            length == self@.length,
    {
        self.length
    }

    /// The type.
    pub fn get_class(&self) -> (class: ChunkType)
        ensures
            class == self@.class,
    {
        self.class
    }

    /// The payload.
    pub fn get_data(&self) -> (data: &[u8])
        ensures
            data@ == self@.data,
    {
        self.data.as_slice()
    }

    /// The checksum that the stream stored.
    pub fn get_crc(&self) -> (crc: u32)
        ensures
            crc == self@.crc,
    {
        self.crc
    }
}

/// A decoded chunk is well formed, and it takes no more bytes than there
/// were.
pub proof fn lemma_decode_wf(s: Seq<u8>)
    requires
        spec_decode(s) is Ok,
    ensures
        spec_decode(s)->Ok_0.wf(),
        spec_decode(s)->Ok_0.encoded_len() <= s.len(),
{
    lemma_classify_code(s.subrange(4, 8));
}

/// Decoding looks at the bytes of the chunk alone: a sequence that begins
/// with the same bytes, as many as the chunk takes, decodes to the same
/// chunk.
pub proof fn lemma_decode_reads_prefix(s: Seq<u8>, t: Seq<u8>)
    requires
        spec_decode(s) is Ok,
        spec_decode(s)->Ok_0.encoded_len() <= t.len(),
        t.subrange(0, spec_decode(s)->Ok_0.encoded_len() as int) == s.subrange(
            0,
            spec_decode(s)->Ok_0.encoded_len() as int,
        ),
    ensures
        spec_decode(t) == spec_decode(s),
{
    let length = spec_decode(s)->Ok_0.length as int;
    let used = 12 + length;
    let head_s = s.subrange(0, used);
    let head_t = t.subrange(0, used);
    assert(s.subrange(0, 4) =~= head_s.subrange(0, 4));
    assert(t.subrange(0, 4) =~= head_t.subrange(0, 4));
    assert(s.subrange(4, 8) =~= head_s.subrange(4, 8));
    assert(t.subrange(4, 8) =~= head_t.subrange(4, 8));
    assert(s.subrange(8, 8 + length) =~= head_s.subrange(8, 8 + length));
    assert(t.subrange(8, 8 + length) =~= head_t.subrange(8, 8 + length));
    assert(s.subrange(8 + length, 12 + length) =~= head_s.subrange(8 + length, 12 + length));
    assert(t.subrange(8 + length, 12 + length) =~= head_t.subrange(8 + length, 12 + length));
}

/// The bytes that a chunk was decoded from are the chunk's encoding.
pub proof fn lemma_decode_is_encoded(s: Seq<u8>)
    requires
        spec_decode(s) is Ok,
    ensures
        spec_decode(s)->Ok_0.encode() == s.subrange(
            0,
            spec_decode(s)->Ok_0.encoded_len() as int,
        ),
{
    let chunk = spec_decode(s)->Ok_0;
    let length = chunk.length as int;
    lemma_u32_be_bytes_round_trip(s.subrange(0, 4));
    lemma_u32_be_bytes_round_trip(s.subrange(8 + length, 12 + length));
    lemma_classify_code(s.subrange(4, 8));
    assert(chunk.encode() =~= s.subrange(0, 12 + length));
}

/// Decoding undoes encoding: the encoding of a well-formed chunk, whatever
/// follows it, decodes to the chunk.
pub proof fn lemma_decode_encoded(chunk: ChunkView, rest: Seq<u8>)
    requires
        chunk.wf(),
    ensures
        chunk.encode().len() == chunk.encoded_len(),
        spec_decode(chunk.encode() + rest) == Ok::<ChunkView, ParsingError>(chunk),
        (chunk.encode() + rest).skip(chunk.encoded_len() as int) == rest,
{
    let s = chunk.encode() + rest;
    let length = chunk.length as int;
    lemma_u32_be_round_trip(chunk.length as u32);
    lemma_u32_be_round_trip(chunk.crc);
    assert(chunk.class.code().len() == 4);
    assert(s.subrange(0, 4) =~= spec_u32_to_be_bytes(chunk.length as u32));
    assert(s.subrange(4, 8) =~= chunk.class.code());
    assert(s.subrange(8, 8 + length) =~= chunk.data);
    assert(s.subrange(8 + length, 12 + length) =~= spec_u32_to_be_bytes(chunk.crc));
    assert(s.skip(12 + length) =~= rest);
}

/// The checksum catches every change of one byte behind the length field:
/// a chunk that decodes no longer does once a byte of its type code, of its
/// payload or of its stored checksum has another value.
pub proof fn lemma_decode_detects_changed_byte(s: Seq<u8>, i: int, b: u8)
    requires
        spec_decode(s) is Ok,
        4 <= i < spec_decode(s)->Ok_0.encoded_len(),
        b != s[i],
    ensures
        spec_decode(s.update(i, b)) == Err::<ChunkView, ParsingError>(
            ParsingError::ChecksumMismatch,
        ),
{
    let t = s.update(i, b);
    let length = spec_decode(s)->Ok_0.length as int;
    let checked = s.subrange(4, 8) + s.subrange(8, 8 + length);
    assert(t.subrange(0, 4) =~= s.subrange(0, 4));
    if i < 8 + length {
        assert(t.subrange(4, 8) + t.subrange(8, 8 + length) =~= checked.update(i - 4, b));
        assert(t.subrange(8 + length, 12 + length) =~= s.subrange(8 + length, 12 + length));
        lemma_crc32_detects_changed_byte(checked, i - 4, b);
    } else {
        assert(t.subrange(4, 8) =~= s.subrange(4, 8));
        assert(t.subrange(8, 8 + length) =~= s.subrange(8, 8 + length));
        let stored_s = s.subrange(8 + length, 12 + length);
        let stored_t = t.subrange(8 + length, 12 + length);
        assert(stored_t[i - 8 - length] != stored_s[i - 8 - length]);
        if spec_u32_from_be_bytes(stored_t) == spec_u32_from_be_bytes(stored_s) {
            lemma_u32_be_injective(stored_s, stored_t);
        }
    }
}

/// A chunk cut short does not decode: what is left of it is too small, or
/// its payload or its checksum cannot be read in full.
pub proof fn lemma_decode_truncated(s: Seq<u8>, kept: int)
    requires
        spec_decode(s) is Ok,
        0 <= kept < spec_decode(s)->Ok_0.encoded_len(),
    ensures
        spec_decode(s.take(kept)) == Err::<ChunkView, ParsingError>(
            if kept < 12 {
                ParsingError::SizeTooSmall
            } else if kept < 8 + spec_decode(s)->Ok_0.length {
                ParsingError::InvalidLength
            } else {
                ParsingError::InvalidChecksum
            },
        ),
{
    if kept >= 12 {
        assert(s.take(kept).subrange(0, 4) =~= s.subrange(0, 4));
    }
}

/// The first step of decoding a stream that is not empty: the chunk at the
/// front is well formed and is first among the chunks, its bytes are its
/// encoding, and the others are the chunks of what follows it.
pub proof fn lemma_decode_all_step(s: Seq<u8>)
    requires
        spec_decode_all(s) is Ok,
        s.len() > 0,
    ensures
        spec_decode(s) is Ok,
        spec_decode(s)->Ok_0.wf(),
        spec_decode(s)->Ok_0.encoded_len() <= s.len(),
        spec_decode(s)->Ok_0.encode() == s.subrange(0, spec_decode(s)->Ok_0.encoded_len() as int),
        spec_decode_all(s.skip(spec_decode(s)->Ok_0.encoded_len() as int)) is Ok,
        spec_decode_all(s)->Ok_0 == seq![spec_decode(s)->Ok_0] + spec_decode_all(
            s.skip(spec_decode(s)->Ok_0.encoded_len() as int),
        )->Ok_0,
{
    lemma_decode_wf(s);
    lemma_decode_is_encoded(s);
}

/// The chunks of a stream that decodes are well formed, and their encodings,
/// one after the other, are the stream: the chunks tile it without a gap or
/// an overlap.
pub proof fn lemma_decode_all_tiles(s: Seq<u8>)
    requires
        spec_decode_all(s) is Ok,
    ensures
        forall|i: int|
            0 <= i < spec_decode_all(s)->Ok_0.len() ==> (#[trigger] spec_decode_all(
                s,
            )->Ok_0[i]).wf(),
        spec_encode_all(spec_decode_all(s)->Ok_0) == s,
    decreases s.len(),
{
    let chunks = spec_decode_all(s)->Ok_0;
    if s.len() > 0 {
        lemma_decode_all_step(s);
        let chunk = spec_decode(s)->Ok_0;
        let used = chunk.encoded_len() as int;
        let rest = s.skip(used);
        let others = spec_decode_all(rest)->Ok_0;
        lemma_decode_all_tiles(rest);
        assert(chunks == seq![chunk] + others);
        assert(chunks.skip(1) =~= others);
        assert(chunks[0] == chunk);
        assert forall|i: int| 0 <= i < chunks.len() implies (#[trigger] chunks[i]).wf() by {
            if i > 0 {
                assert(chunks[i] == others[i - 1]);
            }
        }
        assert(spec_encode_all(chunks) == chunk.encode() + spec_encode_all(others));
        assert(s =~= s.subrange(0, used) + rest);
    } else {
        assert(s =~= Seq::<u8>::empty());
    }
}

/// Well-formed chunks written one after the other decode to themselves.
pub proof fn lemma_decode_all_encoded(chunks: Seq<ChunkView>)
    requires
        forall|i: int| 0 <= i < chunks.len() ==> (#[trigger] chunks[i]).wf(),
    ensures
        spec_decode_all(spec_encode_all(chunks)) == Ok::<Seq<ChunkView>, ParsingError>(chunks),
    decreases chunks.len(),
{
    if chunks.len() > 0 {
        let rest = chunks.skip(1);
        assert(forall|i: int| 0 <= i < rest.len() ==> rest[i] == chunks[i + 1]);
        lemma_decode_all_encoded(rest);
        lemma_decode_encoded(chunks[0], spec_encode_all(rest));
        assert(seq![chunks[0]] + rest =~= chunks);
    } else {
        assert(chunks =~= Seq::<ChunkView>::empty());
    }
}

/// Nothing followed by the chunks of `rest` is `rest`.
proof fn lemma_after_empty(rest: Result<Seq<ChunkView>, ParsingError>)
    ensures
        spec_after(Seq::empty(), rest) == rest,
{
    if let Ok(chunks) = rest {
        assert(Seq::<ChunkView>::empty() + chunks =~= chunks);
    }
}

/// Putting `done` before a chunk and what follows it is putting `done` and
/// the chunk before what follows.
proof fn lemma_after_after(
    done: Seq<ChunkView>,
    chunk: ChunkView,
    rest: Result<Seq<ChunkView>, ParsingError>,
)
    ensures
        spec_after(done, spec_after(seq![chunk], rest)) == spec_after(done.push(chunk), rest),
{
    if let Ok(chunks) = rest {
        assert(done + (seq![chunk] + chunks) =~= done.push(chunk) + chunks);
    }
}

/// A stream that is not empty and decodes has at least one chunk, and its
/// first chunk is the chunk at its front.
pub proof fn lemma_decode_all_first(s: Seq<u8>)
    requires
        spec_decode_all(s) is Ok,
        s.len() > 0,
    ensures
        spec_decode_all(s)->Ok_0.len() > 0,
        spec_decode(s) == Ok::<ChunkView, ParsingError>(spec_decode_all(s)->Ok_0[0]),
{
}

} // verus!
