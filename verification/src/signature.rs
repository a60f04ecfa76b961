//! The signature that opens a PNG stream.

use crate::constants::PNG_SIGNATURE;
use vstd::prelude::*;

verus! {

/// Whether `s` begins with the eight bytes of the PNG signature.
pub open spec fn has_signature(s: Seq<u8>) -> bool {
    s.len() >= 8 && s.subrange(0, 8) == PNG_SIGNATURE@
}

/// The first eight bytes of a header chunk: a length of thirteen and the
/// header's type code.
pub open spec fn header_chunk_prefix() -> Seq<u8> {
    seq![0u8, 0u8, 0u8, 13u8, 73u8, 72u8, 68u8, 82u8]
}

/// Tells whether `data` begins with the PNG signature.
pub fn starts_with_signature(data: &[u8]) -> (r: bool)
    ensures
        r == has_signature(data@),
{
    if data.len() < 8 {
        return false;
    }
    let mut i: usize = 0;
    while i < 8
        invariant
            i <= 8,
            data@.len() >= 8,
            forall|j: int| 0 <= j < i ==> data@[j] == PNG_SIGNATURE@[j],
        decreases 8 - i,
    {
        if data[i] != PNG_SIGNATURE[i] {
            assert(data@.subrange(0, 8)[i as int] != PNG_SIGNATURE@[i as int]);
            return false;
        }
        i = i + 1;
    }
    assert(data@.subrange(0, 8) =~= PNG_SIGNATURE@);
    true
}

/// A buffer is the signature followed by `rest` exactly if it begins with
/// the signature and `rest` is what follows its first eight bytes.
pub proof fn lemma_signature_then(buffer: Seq<u8>, rest: Seq<u8>)
    ensures
        buffer == PNG_SIGNATURE@ + rest <==> has_signature(buffer) && buffer.skip(8) == rest,
{
    if buffer == PNG_SIGNATURE@ + rest {
        assert(buffer.subrange(0, 8) =~= PNG_SIGNATURE@);
        assert(buffer.skip(8) =~= rest);
    }
    if has_signature(buffer) && buffer.skip(8) == rest {
        assert(buffer =~= buffer.subrange(0, 8) + buffer.skip(8));
    }
}

} // verus!
