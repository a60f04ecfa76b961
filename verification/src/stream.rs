//! What holds of whole streams: when parsing succeeds, and which error a
//! damaged stream is refused with.

use crate::big_endian::spec_u32_to_be_bytes;
use crate::chunk::{
    lemma_decode_all_encoded, lemma_decode_all_first, lemma_decode_all_tiles,
    lemma_decode_detects_changed_byte, lemma_decode_is_encoded, lemma_decode_reads_prefix,
    lemma_decode_truncated, lemma_decode_wf, spec_decode, spec_decode_all, spec_encode_all,
    ChunkView,
};
use crate::constants::PNG_SIGNATURE;
use crate::errors::{ImageError, ParsingError};
use crate::parsed_chunks::{spec_decode_header, HeaderView};
use crate::png::{spec_parse, spec_walk, BuilderView, PngView};
use crate::signature::{has_signature, header_chunk_prefix, lemma_signature_then};
use vstd::prelude::*;

verus! {

/// Whether a chunk of the stream `s` begins at `at`, or the stream ends
/// there.
pub open spec fn is_chunk_boundary(s: Seq<u8>, at: int) -> bool
    decreases s.len(),
{
    at == 0 || (s.len() > 0 && match spec_decode(s) {
        Err(_) => false,
        Ok(chunk) => at >= chunk.encoded_len() && is_chunk_boundary(
            s.skip(chunk.encoded_len() as int),
            at - chunk.encoded_len(),
        ),
    })
}

/// Whether the byte at `at` belongs to the checked part of a chunk of the
/// stream `s`: to its type code, to its payload or to its stored checksum.
pub open spec fn is_checked_byte(s: Seq<u8>, at: int) -> bool
    decreases s.len(),
{
    s.len() > 0 && match spec_decode(s) {
        Err(_) => false,
        Ok(chunk) => if at < chunk.encoded_len() {
            4 <= at
        } else {
            is_checked_byte(s.skip(chunk.encoded_len() as int), at - chunk.encoded_len())
        },
    }
}

/// The order that the chunks of a stream must keep: the header first and
/// only there, with a payload that decodes; the end chunk last and only
/// there; the palette at most once.
pub open spec fn well_ordered(chunks: Seq<ChunkView>) -> bool {
    &&& chunks.len() > 0
    &&& chunks[0].class is IHDR
    &&& spec_decode_header(chunks[0].data) is Ok
    &&& forall|i: int| 0 < i < chunks.len() ==> !(#[trigger] chunks[i].class is IHDR)
    &&& chunks.last().class is IEND
    &&& forall|i: int| 0 <= i < chunks.len() - 1 ==> !(#[trigger] chunks[i].class is IEND)
    &&& forall|i: int, j: int|
        0 <= i < j < chunks.len() ==> !(#[trigger] chunks[i].class is PLTE
            && #[trigger] chunks[j].class is PLTE)
}

/// The order that the chunks behind the header must keep, in a stream that
/// has or has not shown its palette yet.
pub open spec fn well_ordered_body(chunks: Seq<ChunkView>, palette_seen: bool) -> bool {
    &&& chunks.len() > 0
    &&& forall|i: int| 0 <= i < chunks.len() ==> !(#[trigger] chunks[i].class is IHDR)
    &&& chunks.last().class is IEND
    &&& forall|i: int| 0 <= i < chunks.len() - 1 ==> !(#[trigger] chunks[i].class is IEND)
    &&& forall|i: int, j: int|
        0 <= i < j < chunks.len() ==> !(#[trigger] chunks[i].class is PLTE
            && #[trigger] chunks[j].class is PLTE)
    &&& palette_seen ==> forall|i: int|
        0 <= i < chunks.len() ==> !(#[trigger] chunks[i].class is PLTE)
}

/// What taking the chunks of `chunks` one by one does to the state: the
/// state after the last, or the first error. A chunk that follows the end
/// chunk is an error.
pub open spec fn spec_route(state: BuilderView, chunks: Seq<ChunkView>) -> Result<
    BuilderView,
    ParsingError,
>
    decreases chunks.len(),
{
    if chunks.len() == 0 {
        Ok(state)
    } else if state.end is Some {
        Err(ParsingError::TrailingDataAfterEnd)
    } else {
        match state.push(chunks[0]) {
            Err(e) => Err(e),
            Ok(next) => spec_route(next, chunks.skip(1)),
        }
    }
}

/// Walking a stream is decoding its chunks and taking them one by one:
/// the walk succeeds where both do, and then ends in the same state.
pub proof fn lemma_walk_is_route(s: Seq<u8>, state: BuilderView)
    ensures
        spec_walk(s, state) is Ok <==> spec_decode_all(s) is Ok && spec_route(
            state,
            spec_decode_all(s)->Ok_0,
        ) is Ok,
        spec_walk(s, state) is Ok ==> spec_walk(s, state) == spec_route(
            state,
            spec_decode_all(s)->Ok_0,
        ),
    decreases s.len(),
{
    if s.len() > 0 {
        if spec_decode_all(s) is Ok {
            lemma_decode_all_first(s);
        }
        if spec_decode(s) is Ok {
            let chunk = spec_decode(s)->Ok_0;
            let rest = s.skip(chunk.encoded_len() as int);
            lemma_decode_wf(s);
            if spec_decode_all(rest) is Ok {
                let chunks = spec_decode_all(s)->Ok_0;
                assert(chunks.skip(1) =~= spec_decode_all(rest)->Ok_0);
            }
            if state.end is None && state.push(chunk) is Ok {
                lemma_walk_is_route(rest, state.push(chunk)->Ok_0);
            }
        }
    }
}

/// Behind the header, taking chunks one by one ends in a container exactly
/// where the chunks keep the order of a body.
proof fn lemma_route_body(state: BuilderView, chunks: Seq<ChunkView>)
    requires
        state.header is Some,
        state.end is None,
    ensures
        (spec_route(state, chunks) is Ok && spec_route(state, chunks)->Ok_0.finish() is Ok)
            <==> well_ordered_body(chunks, state.palette is Some),
    decreases chunks.len(),
{
    if chunks.len() > 0 {
        let first = chunks[0];
        let rest = chunks.skip(1);
        assert(forall|i: int| 0 <= i < rest.len() ==> rest[i] == chunks[i + 1]);
        if first.class is IEND {
            if rest.len() > 0 {
                assert(chunks[0].class is IEND);
            }
        } else if state.push(first) is Ok {
            let next = state.push(first)->Ok_0;
            lemma_route_body(next, rest);
            let seen = state.palette is Some;
            let seen_next = next.palette is Some;
            if well_ordered_body(chunks, seen) {
                assert(chunks.last().class is IEND);
                assert(rest.len() > 0);
                assert(rest.last() == chunks.last());
                assert forall|i: int| 0 <= i < rest.len()
                    implies !(#[trigger] rest[i].class is PLTE && seen_next) by {
                    assert(rest[i] == chunks[i + 1]);
                    if first.class is PLTE {
                        assert(!(chunks[0].class is PLTE && chunks[i + 1].class is PLTE));
                    }
                }
                assert(well_ordered_body(rest, seen_next));
            }
            if well_ordered_body(rest, seen_next) {
                assert(chunks.last() == rest.last());
                assert forall|i: int| 0 <= i < chunks.len()
                    implies !(#[trigger] chunks[i].class is IHDR) by {
                    if i > 0 {
                        assert(chunks[i] == rest[i - 1]);
                    }
                }
                assert forall|i: int| 0 <= i < chunks.len() - 1
                    implies !(#[trigger] chunks[i].class is IEND) by {
                    if i > 0 {
                        assert(chunks[i] == rest[i - 1]);
                    }
                }
                assert forall|i: int, j: int| 0 <= i < j < chunks.len()
                    implies !(#[trigger] chunks[i].class is PLTE
                        && #[trigger] chunks[j].class is PLTE) by {
                    assert(chunks[j] == rest[j - 1]);
                    if i > 0 {
                        assert(chunks[i] == rest[i - 1]);
                    }
                }
                assert forall|i: int| 0 <= i < chunks.len()
                    implies !(#[trigger] chunks[i].class is PLTE && seen) by {
                    if i > 0 {
                        assert(chunks[i] == rest[i - 1]);
                    }
                }
                assert(well_ordered_body(chunks, seen));
            }
        } else {
            if first.class is PLTE && well_ordered_body(chunks, state.palette is Some) {
                assert(!(chunks[0].class is PLTE));
            }
            if first.class is IHDR && well_ordered_body(chunks, state.palette is Some) {
                assert(!(chunks[0].class is IHDR));
            }
        }
    }
}

/// From the start, taking chunks one by one ends in a container exactly
/// where the chunks are well ordered.
pub proof fn lemma_route_well_ordered(chunks: Seq<ChunkView>)
    ensures
        (spec_route(BuilderView::empty(), chunks) is Ok && spec_route(
            BuilderView::empty(),
            chunks,
        )->Ok_0.finish() is Ok) <==> well_ordered(chunks),
{
    let start = BuilderView::empty();
    if chunks.len() > 0 && start.push(chunks[0]) is Ok {
        let next = start.push(chunks[0])->Ok_0;
        let rest = chunks.skip(1);
        lemma_route_body(next, rest);
        assert(forall|i: int| 0 <= i < rest.len() ==> rest[i] == chunks[i + 1]);
        if well_ordered(chunks) {
            assert(chunks.last().class is IEND);
            assert(rest.len() > 0);
            assert(rest.last() == chunks.last());
            assert(well_ordered_body(rest, false));
        }
        if well_ordered_body(rest, false) {
            assert(chunks.last() == rest.last());
            assert forall|i: int| 0 < i < chunks.len()
                implies !(#[trigger] chunks[i].class is IHDR) by {
                assert(chunks[i] == rest[i - 1]);
            }
            assert forall|i: int| 0 <= i < chunks.len() - 1
                implies !(#[trigger] chunks[i].class is IEND) by {
                if i > 0 {
                    assert(chunks[i] == rest[i - 1]);
                }
            }
            assert forall|i: int, j: int| 0 <= i < j < chunks.len()
                implies !(#[trigger] chunks[i].class is PLTE
                    && #[trigger] chunks[j].class is PLTE) by {
                assert(chunks[j] == rest[j - 1]);
                if i > 0 {
                    assert(chunks[i] == rest[i - 1]);
                }
            }
            assert(well_ordered(chunks));
        }
    }
}

/// Parsing succeeds exactly on the buffers that begin with the signature
/// and continue with chunks that tile the rest, each with the checksum of
/// its type code and payload, in an order that has the header first and
/// once, the end chunk last and once, and the palette at most once.
pub proof fn lemma_parse_succeeds_iff(buffer: Seq<u8>)
    ensures
        spec_parse(buffer) is Ok <==> has_signature(buffer) && spec_decode_all(buffer.skip(8))
            is Ok && well_ordered(spec_decode_all(buffer.skip(8))->Ok_0),
{
    lemma_walk_is_route(buffer.skip(8), BuilderView::empty());
    if spec_decode_all(buffer.skip(8)) is Ok {
        lemma_route_well_ordered(spec_decode_all(buffer.skip(8))->Ok_0);
    }
}

/// Whether `buffer` is the signature followed by the encodings of `chunks`,
/// each of them well formed, in an order that a stream must keep.
pub open spec fn is_stream_of(buffer: Seq<u8>, chunks: Seq<ChunkView>) -> bool {
    &&& buffer == PNG_SIGNATURE@ + spec_encode_all(chunks)
    &&& forall|i: int| 0 <= i < chunks.len() ==> (#[trigger] chunks[i]).wf()
    &&& well_ordered(chunks)
}

/// A buffer that begins with the signature is the signature followed by
/// the encodings of the chunks that tile its rest.
proof fn lemma_stream_of_decoded(buffer: Seq<u8>)
    requires
        has_signature(buffer),
        spec_decode_all(buffer.skip(8)) is Ok,
    ensures
        buffer == PNG_SIGNATURE@ + spec_encode_all(
            spec_decode_all(buffer.skip(8))->Ok_0,
        ),
        forall|i: int|
            0 <= i < spec_decode_all(buffer.skip(8))->Ok_0.len() ==> (#[trigger] spec_decode_all(
                buffer.skip(8),
            )->Ok_0[i]).wf(),
{
    lemma_decode_all_tiles(buffer.skip(8));
    lemma_signature_then(buffer, buffer.skip(8));
}

/// The signature followed by the encodings of well-formed chunks begins
/// with the signature, and its rest decodes to these chunks.
proof fn lemma_decoded_of_stream(buffer: Seq<u8>, chunks: Seq<ChunkView>)
    requires
        buffer == PNG_SIGNATURE@ + spec_encode_all(chunks),
        forall|i: int| 0 <= i < chunks.len() ==> (#[trigger] chunks[i]).wf(),
    ensures
        has_signature(buffer),
        spec_decode_all(buffer.skip(8)) == Ok::<Seq<ChunkView>, ParsingError>(chunks),
{
    lemma_decode_all_encoded(chunks);
    lemma_signature_then(buffer, spec_encode_all(chunks));
}

/// The buffers that parse are the well-ordered streams of well-formed
/// chunks, and no others: a buffer parses exactly if it is the signature
/// followed by the encodings of such chunks, with nothing between them and
/// nothing behind them.
pub proof fn lemma_parse_succeeds_iff_stream(buffer: Seq<u8>)
    ensures
        spec_parse(buffer) is Ok <==> exists|chunks: Seq<ChunkView>|
            is_stream_of(buffer, chunks),
{
    lemma_parse_succeeds_iff(buffer);
    if has_signature(buffer) && spec_decode_all(buffer.skip(8)) is Ok && well_ordered(
        spec_decode_all(buffer.skip(8))->Ok_0,
    ) {
        lemma_stream_of_decoded(buffer);
        assert(is_stream_of(buffer, spec_decode_all(buffer.skip(8))->Ok_0));
    }
    if exists|chunks: Seq<ChunkView>| is_stream_of(buffer, chunks) {
        let chunks = choose|chunks: Seq<ChunkView>| is_stream_of(buffer, chunks);
        lemma_decoded_of_stream(buffer, chunks);
    }
}

/// The chunks of `chunks` that are image-data chunks.
pub open spec fn image_data_of(chunks: Seq<ChunkView>) -> Seq<ChunkView> {
    chunks.filter(|chunk: ChunkView| chunk.class is IDAT)
}

/// The chunks of `chunks` that are ancillary chunks.
pub open spec fn ancillary_of(chunks: Seq<ChunkView>) -> Seq<ChunkView> {
    chunks.filter(|chunk: ChunkView| chunk.class is Ancillary)
}

/// The chunks of `chunks` that are palette chunks.
pub open spec fn palettes_of(chunks: Seq<ChunkView>) -> Seq<ChunkView> {
    chunks.filter(|chunk: ChunkView| chunk.class is PLTE)
}

/// No chunk, or the one chunk.
pub open spec fn seq_of(chunk: Option<ChunkView>) -> Seq<ChunkView> {
    match chunk {
        Some(chunk) => seq![chunk],
        None => Seq::empty(),
    }
}

proof fn lemma_filter_first(chunks: Seq<ChunkView>, pred: spec_fn(ChunkView) -> bool)
    requires
        chunks.len() > 0,
    ensures
        chunks.filter(pred) == if pred(chunks[0]) {
            seq![chunks[0]] + chunks.skip(1).filter(pred)
        } else {
            chunks.skip(1).filter(pred)
        },
{
    let first = seq![chunks[0]];
    assert(chunks =~= first + chunks.skip(1));
    Seq::filter_distributes_over_add(first, chunks.skip(1), pred);
    reveal_with_fuel(Seq::filter, 2);
    assert(first.drop_last() =~= Seq::<ChunkView>::empty());
    assert(first.filter(pred) =~= if pred(chunks[0]) {
        first
    } else {
        Seq::<ChunkView>::empty()
    });
    assert(Seq::<ChunkView>::empty() + chunks.skip(1).filter(pred) =~= chunks.skip(1).filter(pred));
}

/// Taking chunks one by one sorts them by role and keeps their order: behind
/// the header, each list of the state grows by the chunks of its role, in
/// the order in which they came.
proof fn lemma_route_sorts(state: BuilderView, chunks: Seq<ChunkView>)
    requires
        state.header is Some,
        spec_route(state, chunks) is Ok,
    ensures
        spec_route(state, chunks)->Ok_0.header == state.header,
        spec_route(state, chunks)->Ok_0.image_data == state.image_data + image_data_of(chunks),
        spec_route(state, chunks)->Ok_0.ancillary == state.ancillary + ancillary_of(chunks),
        seq_of(spec_route(state, chunks)->Ok_0.palette) == seq_of(state.palette) + palettes_of(
            chunks,
        ),
    decreases chunks.len(),
{
    let idat = |chunk: ChunkView| chunk.class is IDAT;
    let anc = |chunk: ChunkView| chunk.class is Ancillary;
    let plte = |chunk: ChunkView| chunk.class is PLTE;
    if chunks.len() == 0 {
        reveal_with_fuel(Seq::filter, 1);
        assert(state.image_data + chunks.filter(idat) =~= state.image_data);
        assert(state.ancillary + chunks.filter(anc) =~= state.ancillary);
        assert(seq_of(state.palette) + chunks.filter(plte) =~= seq_of(state.palette));
    } else {
        let first = chunks[0];
        let rest = chunks.skip(1);
        let next = state.push(first)->Ok_0;
        lemma_route_sorts(next, rest);
        lemma_filter_first(chunks, idat);
        lemma_filter_first(chunks, anc);
        lemma_filter_first(chunks, plte);
        assert(next.image_data + rest.filter(idat) =~= state.image_data + chunks.filter(idat));
        assert(next.ancillary + rest.filter(anc) =~= state.ancillary + chunks.filter(anc));
        assert(seq_of(next.palette) + rest.filter(plte) =~= seq_of(state.palette) + chunks.filter(
            plte,
        ));
    }
}

/// The container holds the chunks of the stream sorted by role, each list
/// in the order of the stream: the header is decoded from the first chunk,
/// the end chunk is the last, and the palette, the image data and the
/// ancillary chunks are the chunks of these roles, none lost and none added.
pub proof fn lemma_parse_sorts_chunks(buffer: Seq<u8>)
    requires
        spec_parse(buffer) is Ok,
    ensures
        spec_decode_all(buffer.skip(8)) is Ok,
        well_ordered(spec_decode_all(buffer.skip(8))->Ok_0),
        spec_decode_header(spec_decode_all(buffer.skip(8))->Ok_0[0].data) == Ok::<
            HeaderView,
            ParsingError,
        >(spec_parse(buffer)->Ok_0.header),
        spec_parse(buffer)->Ok_0.end == spec_decode_all(buffer.skip(8))->Ok_0.last(),
        seq_of(spec_parse(buffer)->Ok_0.palette) == palettes_of(
            spec_decode_all(buffer.skip(8))->Ok_0,
        ),
        spec_parse(buffer)->Ok_0.image_data == image_data_of(
            spec_decode_all(buffer.skip(8))->Ok_0,
        ),
        spec_parse(buffer)->Ok_0.ancillary == ancillary_of(spec_decode_all(buffer.skip(8))->Ok_0),
{
    let start = BuilderView::empty();
    lemma_parse_succeeds_iff(buffer);
    lemma_walk_is_route(buffer.skip(8), start);
    let chunks = spec_decode_all(buffer.skip(8))->Ok_0;
    let rest = chunks.skip(1);
    let next = start.push(chunks[0])->Ok_0;
    lemma_route_sorts(next, rest);
    lemma_route_ends(next, rest);
    assert(rest.len() > 0) by {
        if rest.len() == 0 {
            assert(chunks.last() == chunks[0]);
        }
    }
    assert(rest.last() == chunks.last());
    lemma_filter_first(chunks, |chunk: ChunkView| chunk.class is IDAT);
    lemma_filter_first(chunks, |chunk: ChunkView| chunk.class is Ancillary);
    lemma_filter_first(chunks, |chunk: ChunkView| chunk.class is PLTE);
    assert(Seq::<ChunkView>::empty() + image_data_of(rest) =~= image_data_of(rest));
    assert(Seq::<ChunkView>::empty() + ancillary_of(rest) =~= ancillary_of(rest));
    assert(Seq::<ChunkView>::empty() + palettes_of(rest) =~= palettes_of(rest));
}

/// Where taking chunks one by one ends with an end chunk stored, that chunk
/// is the last of them, unless it was stored before.
proof fn lemma_route_ends(state: BuilderView, chunks: Seq<ChunkView>)
    requires
        state.header is Some,
        state.end is None,
        chunks.len() > 0,
        spec_route(state, chunks) is Ok,
        spec_route(state, chunks)->Ok_0.end is Some,
    ensures
        spec_route(state, chunks)->Ok_0.end == Some(chunks.last()),
    decreases chunks.len(),
{
    let rest = chunks.skip(1);
    let next = state.push(chunks[0])->Ok_0;
    assert(spec_route(state, chunks) == spec_route(next, rest));
    if rest.len() > 0 {
        assert(rest.last() == chunks.last());
        assert(next.end is None);
        lemma_route_ends(next, rest);
    } else {
        assert(chunks.last() == chunks[0]);
        assert(spec_route(next, rest) == Ok::<BuilderView, ParsingError>(next));
    }
}

/// The encoding of a chunk with the header's type and thirteen bytes of
/// payload begins with a length of thirteen and the header's type code.
proof fn lemma_header_chunk_prefix(chunk: ChunkView)
    requires
        chunk.class is IHDR,
        chunk.length == 13,
    ensures
        chunk.encode().len() >= 8,
        chunk.encode().subrange(0, 8) == header_chunk_prefix(),
{
    let length = spec_u32_to_be_bytes(13u32);
    assert(length =~= seq![0u8, 0u8, 0u8, 13u8]) by {
        reveal(spec_u32_to_be_bytes);
    }
    assert(chunk.encode().subrange(0, 8) =~= length + chunk.class.code());
    assert(length + chunk.class.code() =~= header_chunk_prefix());
}

/// The first chunk of a buffer that parses is a header chunk with thirteen
/// bytes of payload.
proof fn lemma_parse_first_chunk(buffer: Seq<u8>)
    requires
        spec_parse(buffer) is Ok,
    ensures
        spec_decode(buffer.skip(8)) is Ok,
        spec_decode(buffer.skip(8))->Ok_0.class is IHDR,
        spec_decode(buffer.skip(8))->Ok_0.length == 13,
{
    let s = buffer.skip(8);
    let start = BuilderView::empty();
    assert(spec_walk(s, start) is Ok);
    assert(s.len() > 0) by {
        if s.len() == 0 {
            assert(spec_walk(s, start) == Ok::<BuilderView, ParsingError>(start));
        }
    }
    lemma_decode_wf(s);
}

/// A buffer that parses begins as a PNG stream must: with the signature and
/// the first eight bytes of a header chunk.
pub proof fn lemma_parse_begins_with_header(buffer: Seq<u8>)
    requires
        spec_parse(buffer) is Ok,
    ensures
        has_signature(buffer),
        buffer.len() >= 16,
        buffer.subrange(8, 16) == header_chunk_prefix(),
{
    let s = buffer.skip(8);
    lemma_parse_first_chunk(buffer);
    let chunk = spec_decode(s)->Ok_0;
    lemma_decode_wf(s);
    lemma_decode_is_encoded(s);
    lemma_header_chunk_prefix(chunk);
    assert(buffer.subrange(8, 16) =~= s.subrange(0, 25).subrange(0, 8));
}

/// A walk goes through the front of a stream as it goes through the front
/// alone: where walking `front` ends in a state, walking `front + back`
/// is walking `back` from that state.
pub proof fn lemma_walk_append(front: Seq<u8>, back: Seq<u8>, state: BuilderView)
    requires
        spec_walk(front, state) is Ok,
    ensures
        spec_walk(front + back, state) == spec_walk(back, spec_walk(front, state)->Ok_0),
    decreases front.len(),
{
    if front.len() == 0 {
        assert(front + back =~= back);
    } else {
        let chunk = spec_decode(front)->Ok_0;
        let used = chunk.encoded_len() as int;
        lemma_decode_wf(front);
        assert((front + back).subrange(0, used) =~= front.subrange(0, used));
        lemma_decode_reads_prefix(front, front + back);
        assert((front + back).skip(used) =~= front.skip(used) + back);
        lemma_walk_append(front.skip(used), back, state.push(chunk)->Ok_0);
    }
}

/// A stream with anything behind its end chunk is refused: whatever bytes
/// are added to a buffer that parses, the result is refused with
/// `TrailingDataAfterEnd`.
pub proof fn lemma_parse_trailing_data(buffer: Seq<u8>, extra: Seq<u8>)
    requires
        spec_parse(buffer) is Ok,
        extra.len() > 0,
    ensures
        spec_parse(buffer + extra) == Err::<PngView, ImageError>(
            ImageError::ParsingError(ParsingError::TrailingDataAfterEnd),
        ),
{
    assert((buffer + extra).subrange(0, 8) =~= buffer.subrange(0, 8));
    assert((buffer + extra).skip(8) =~= buffer.skip(8) + extra);
    lemma_walk_append(buffer.skip(8), extra, BuilderView::empty());
}

/// A stream whose first chunk is not the header chunk is refused with
/// `HeaderNotFirst`, whatever follows that chunk.
pub proof fn lemma_parse_header_not_first(buffer: Seq<u8>)
    requires
        has_signature(buffer),
        spec_decode(buffer.skip(8)) is Ok,
        !(spec_decode(buffer.skip(8))->Ok_0.class is IHDR),
    ensures
        spec_parse(buffer) == Err::<PngView, ImageError>(
            ImageError::ParsingError(ParsingError::HeaderNotFirst),
        ),
{
    lemma_decode_wf(buffer.skip(8));
}

/// A second header chunk is refused with `DuplicateHeader`: where the
/// stream up to `at` walks into a state that has its header and not yet its
/// end chunk, and the chunk at `at` is a header chunk.
pub proof fn lemma_parse_duplicate_header(buffer: Seq<u8>, at: int)
    requires
        has_signature(buffer),
        8 <= at <= buffer.len(),
        spec_walk(buffer.subrange(8, at), BuilderView::empty()) is Ok,
        spec_walk(buffer.subrange(8, at), BuilderView::empty())->Ok_0.header is Some,
        spec_walk(buffer.subrange(8, at), BuilderView::empty())->Ok_0.end is None,
        spec_decode(buffer.skip(at)) is Ok,
        spec_decode(buffer.skip(at))->Ok_0.class is IHDR,
    ensures
        spec_parse(buffer) == Err::<PngView, ImageError>(
            ImageError::ParsingError(ParsingError::DuplicateHeader),
        ),
{
    assert(buffer.skip(8) =~= buffer.subrange(8, at) + buffer.skip(at));
    lemma_walk_append(buffer.subrange(8, at), buffer.skip(at), BuilderView::empty());
    lemma_decode_wf(buffer.skip(at));
}

proof fn lemma_walk_detects_changed_byte(s: Seq<u8>, state: BuilderView, at: int, b: u8)
    requires
        spec_walk(s, state) is Ok,
        0 <= at < s.len(),
        is_checked_byte(s, at),
        b != s[at],
    ensures
        spec_walk(s.update(at, b), state) == Err::<BuilderView, ParsingError>(
            ParsingError::ChecksumMismatch,
        ),
    decreases s.len(),
{
    let chunk = spec_decode(s)->Ok_0;
    let used = chunk.encoded_len() as int;
    lemma_decode_wf(s);
    if at < used {
        lemma_decode_detects_changed_byte(s, at, b);
    } else {
        assert(s.update(at, b).subrange(0, used) =~= s.subrange(0, used));
        lemma_decode_reads_prefix(s, s.update(at, b));
        assert(s.update(at, b).skip(used) =~= s.skip(used).update(at - used, b));
        lemma_walk_detects_changed_byte(s.skip(used), state.push(chunk)->Ok_0, at - used, b);
    }
}

/// A changed byte is caught: a buffer that parses is refused with
/// `ChecksumMismatch` once one byte of the type code, the payload or the
/// stored checksum of any of its chunks has another value.
pub proof fn lemma_parse_detects_changed_byte(buffer: Seq<u8>, at: int, b: u8)
    requires
        spec_parse(buffer) is Ok,
        8 <= at < buffer.len(),
        is_checked_byte(buffer.skip(8), at - 8),
        b != buffer[at],
    ensures
        spec_parse(buffer.update(at, b)) == Err::<PngView, ImageError>(
            ImageError::ParsingError(ParsingError::ChecksumMismatch),
        ),
{
    assert(buffer.update(at, b).subrange(0, 8) =~= buffer.subrange(0, 8));
    assert(buffer.update(at, b).skip(8) =~= buffer.skip(8).update(at - 8, b));
    lemma_walk_detects_changed_byte(buffer.skip(8), BuilderView::empty(), at - 8, b);
}

/// The errors of a chunk that was cut short.
pub open spec fn is_truncation_error(e: ParsingError) -> bool {
    e == ParsingError::SizeTooSmall || e == ParsingError::InvalidLength || e
        == ParsingError::InvalidChecksum
}

proof fn lemma_walk_truncated(s: Seq<u8>, state: BuilderView, kept: int)
    requires
        spec_walk(s, state) is Ok,
        0 <= kept < s.len(),
        !is_chunk_boundary(s, kept),
    ensures
        spec_walk(s.take(kept), state) is Err,
        is_truncation_error(spec_walk(s.take(kept), state)->Err_0),
    decreases s.len(),
{
    let chunk = spec_decode(s)->Ok_0;
    let used = chunk.encoded_len() as int;
    lemma_decode_wf(s);
    if kept < used {
        lemma_decode_truncated(s, kept);
    } else {
        assert(s.take(kept).subrange(0, used) =~= s.subrange(0, used));
        lemma_decode_reads_prefix(s, s.take(kept));
        assert(s.take(kept).skip(used) =~= s.skip(used).take(kept - used));
        lemma_walk_truncated(s.skip(used), state.push(chunk)->Ok_0, kept - used);
    }
}

/// A cut inside a chunk is caught at that chunk: a buffer that parses, cut
/// anywhere but between two chunks, is refused because the cut chunk is too
/// small or because its payload or checksum cannot be read in full. No
/// shorter chunk is taken in its place.
pub proof fn lemma_parse_truncated(buffer: Seq<u8>, kept: int)
    requires
        spec_parse(buffer) is Ok,
        8 <= kept < buffer.len(),
        !is_chunk_boundary(buffer.skip(8), kept - 8),
    ensures
        spec_parse(buffer.take(kept)) is Err,
        spec_parse(buffer.take(kept))->Err_0 is ParsingError,
        is_truncation_error(spec_parse(buffer.take(kept))->Err_0->ParsingError_0),
{
    assert(buffer.take(kept).subrange(0, 8) =~= buffer.subrange(0, 8));
    assert(buffer.take(kept).skip(8) =~= buffer.skip(8).take(kept - 8));
    lemma_walk_truncated(buffer.skip(8), BuilderView::empty(), kept - 8);
}

} // verus!
