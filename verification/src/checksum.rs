//! The CRC-32 of a chunk's type code and payload, computed by `crc32fast`.

use vstd::prelude::*;

verus! {

/// One step of the checksum's shift register: the lowest bit leaves, and the
/// reflected generator polynomial is folded in when that bit was set.
pub open spec fn crc32_shift(c: u32) -> u32 {
    if c & 1 == 1 {
        (c >> 1) ^ 0xEDB8_8320u32
    } else {
        c >> 1
    }
}

/// The register after one byte has been absorbed: eight steps on the register
/// with the byte folded into its low bits.
pub open spec fn crc32_absorb(c: u32, b: u8) -> u32 {
    crc32_shift(
        crc32_shift(
            crc32_shift(
                crc32_shift(crc32_shift(crc32_shift(crc32_shift(crc32_shift(c ^ (b as u32)))))),
            ),
        ),
    )
}

/// The entry for `i` in the table that byte-wise implementations look up:
/// eight steps on `i` alone.
pub open spec fn crc32_table(i: u8) -> u32 {
    crc32_absorb(0, i)
}

/// The register after the bytes of `s` have been absorbed in order, starting
/// from the register `c`.
pub open spec fn crc32_run(c: u32, s: Seq<u8>) -> u32
    decreases s.len(),
{
    if s.len() == 0 {
        c
    } else {
        crc32_absorb(crc32_run(c, s.drop_last()), s.last())
    }
}

/// The checksum of a stream whose first part has the checksum `prev` and
/// whose remaining part is `s`.
pub open spec fn crc32_resume(prev: u32, s: Seq<u8>) -> u32 {
    !crc32_run(!prev, s)
}

/// The CRC-32 of `s` (IEEE 802.3, reflected polynomial `0xEDB88320`, register
/// preset to all ones, result complemented).
pub open spec fn crc32(s: Seq<u8>) -> u32 {
    crc32_resume(0, s)
}

/// `crc32fast::Hasher`, a checksum computation in progress. The verifier
/// sees nothing inside it; the two names below say what it stands for.
#[verifier::external_type_specification]
#[verifier::external_body]
pub struct ExHasher(crc32fast::Hasher);

/// The checksum of the bytes that a hasher has consumed so far: what
/// `finalize` returns for it.
pub uninterp spec fn hasher_checksum(h: crc32fast::Hasher) -> u32;

/// The number of bytes that a hasher has consumed so far: what `total_len`
/// returns for it.
pub uninterp spec fn hasher_total_len(h: crc32fast::Hasher) -> u64;

/// `crc32fast::Hasher::new` returns a hasher that has consumed nothing: its
/// checksum is that of the empty stream, which is zero.
pub assume_specification[ crc32fast::Hasher::new ]() -> (h: crc32fast::Hasher)
    ensures
        hasher_checksum(h) == 0,
        hasher_total_len(h) == 0,
;

/// `crc32fast::Hasher::update` consumes `buf`: the checksum continues over
/// its bytes and the byte count grows by its length. The count is kept in a
/// `u64` and must not overflow.
pub assume_specification[ crc32fast::Hasher::update ](h: &mut crc32fast::Hasher, buf: &[u8])
    requires
        hasher_total_len(*old(h)) + buf@.len() <= u64::MAX,
    ensures
        hasher_checksum(*final(h)) == crc32_resume(hasher_checksum(*old(h)), buf@),
        hasher_total_len(*final(h)) == hasher_total_len(*old(h)) + buf@.len(),
;

/// `crc32fast::Hasher::finalize` returns the checksum of what was consumed.
pub assume_specification[ crc32fast::Hasher::finalize ](h: crc32fast::Hasher) -> (crc: u32)
    ensures
        crc == hasher_checksum(h),
;

/// Computes the checksum of a chunk: the CRC-32 of its type code followed by
/// its payload. The two lengths together must fit the hasher's 64-bit count.
pub fn compute(type_bytes: &[u8], data: &[u8]) -> (crc: u32)
    requires
        type_bytes@.len() + data@.len() <= u64::MAX,
    ensures
        crc == crc32(type_bytes@ + data@),
{
    let mut hasher = crc32fast::Hasher::new();
    hasher.update(type_bytes);
    hasher.update(data);
    proof {
        lemma_crc32_resume_concat(0, type_bytes@, data@);
    }
    hasher.finalize()
}

/// Tells whether `expected` is the checksum of a chunk with this type code
/// and payload.
pub fn verify(expected: u32, type_bytes: &[u8], data: &[u8]) -> (ok: bool)
    requires
        type_bytes@.len() + data@.len() <= u64::MAX,
    ensures
        ok <==> expected == crc32(type_bytes@ + data@),
{
    compute(type_bytes, data) == expected
}

/// Absorbing a byte is one table lookup: the entry for the register's low
/// byte folded with the new byte, folded into the register moved down by
/// eight bits. This is the step that `crc32fast` takes for each byte.
pub proof fn lemma_crc32_absorb_by_table(c: u32, b: u8)
    ensures
        crc32_absorb(c, b) == crc32_table(((c & 0xFF) as u8) ^ b) ^ (c >> 8),
{
    assert(crc32_absorb(c, b) == crc32_table(((c & 0xFF) as u8) ^ b) ^ (c >> 8)) by (bit_vector);
}

/// The table begins with `0x00000000`, `0x77073096`, `0xEE0E612C`,
/// `0x990951BA` and ends with `0x2D02EF8D`, as the table of `crc32fast`
/// does.
pub proof fn lemma_crc32_table_entries()
    ensures
        crc32_table(0) == 0x0000_0000u32,
        crc32_table(1) == 0x7707_3096u32,
        crc32_table(2) == 0xEE0E_612Cu32,
        crc32_table(3) == 0x9909_51BAu32,
        crc32_table(255) == 0x2D02_EF8Du32,
{
    assert(crc32_table(0) == 0x0000_0000u32) by (bit_vector);
    assert(crc32_table(1) == 0x7707_3096u32) by (bit_vector);
    assert(crc32_table(2) == 0xEE0E_612Cu32) by (bit_vector);
    assert(crc32_table(3) == 0x9909_51BAu32) by (bit_vector);
    assert(crc32_table(255) == 0x2D02_EF8Du32) by (bit_vector);
}

/// Absorbing `a` and then `b` leaves the register that absorbing `a + b`
/// leaves.
pub proof fn lemma_crc32_run_concat(c: u32, a: Seq<u8>, b: Seq<u8>)
    ensures
        crc32_run(crc32_run(c, a), b) == crc32_run(c, a + b),
    decreases b.len(),
{
    if b.len() == 0 {
        assert(a + b =~= a);
    } else {
        lemma_crc32_run_concat(c, a, b.drop_last());
        assert((a + b).drop_last() =~= a + b.drop_last());
        assert((a + b).last() == b.last());
    }
}

/// A checksum can be computed in parts: resuming from the checksum of `a`
/// over `b` gives the checksum of `a + b`.
pub proof fn lemma_crc32_resume_concat(prev: u32, a: Seq<u8>, b: Seq<u8>)
    ensures
        crc32_resume(crc32_resume(prev, a), b) == crc32_resume(prev, a + b),
{
    let mid: u32 = crc32_run(!prev, a);
    assert(!!mid == mid) by (bit_vector);
    lemma_crc32_run_concat(!prev, a, b);
}

/// The checksum of the empty stream is zero.
pub proof fn lemma_crc32_empty()
    ensures
        crc32(Seq::<u8>::empty()) == 0,
{
    assert(!!0u32 == 0u32) by (bit_vector);
}

/// The checksum of the four bytes `IEND`, the whole checked part of an end
/// chunk, is `0xAE426082`.
pub proof fn lemma_crc32_of_end_code()
    ensures
        crc32(seq![0x49u8, 0x45u8, 0x4Eu8, 0x44u8]) == 0xAE42_6082u32,
{
    let s: Seq<u8> = seq![0x49u8, 0x45u8, 0x4Eu8, 0x44u8];
    let s3: Seq<u8> = seq![0x49u8, 0x45u8, 0x4Eu8];
    let s2: Seq<u8> = seq![0x49u8, 0x45u8];
    let s1: Seq<u8> = seq![0x49u8];
    assert(s.drop_last() =~= s3);
    assert(s3.drop_last() =~= s2);
    assert(s2.drop_last() =~= s1);
    assert(s1.drop_last() =~= Seq::<u8>::empty());
    assert(!0u32 == 0xFFFF_FFFFu32) by (bit_vector);
    assert(crc32_run(0xFFFF_FFFFu32, Seq::<u8>::empty()) == 0xFFFF_FFFFu32);
    assert(crc32_absorb(0xFFFF_FFFFu32, 0x49u8) == 0x22FD_E946u32) by (bit_vector);
    assert(crc32_run(0xFFFF_FFFFu32, s1) == 0x22FD_E946u32);
    assert(crc32_absorb(0x22FD_E946u32, 0x45u8) == 0x992B_AC53u32) by (bit_vector);
    assert(crc32_run(0xFFFF_FFFFu32, s2) == 0x992B_AC53u32);
    assert(crc32_absorb(0x992B_AC53u32, 0x4Eu8) == 0x639F_4775u32) by (bit_vector);
    assert(crc32_run(0xFFFF_FFFFu32, s3) == 0x639F_4775u32);
    assert(crc32_absorb(0x639F_4775u32, 0x44u8) == 0x51BD_9F7Du32) by (bit_vector);
    assert(crc32_run(0xFFFF_FFFFu32, s) == 0x51BD_9F7Du32);
    assert(!0x51BD_9F7Du32 == 0xAE42_6082u32) by (bit_vector);
}

/// A step of the shift register loses nothing: two registers that step to
/// the same register are the same.
pub proof fn lemma_crc32_shift_injective(x: u32, y: u32)
    requires
        crc32_shift(x) == crc32_shift(y),
    ensures
        x == y,
{
    assert(crc32_shift(x) == crc32_shift(y) ==> x == y) by (bit_vector);
}

/// Absorbing a byte loses nothing: if the same register comes out, then the
/// registers before were the same if the bytes were, and the bytes were the
/// same if the registers before were.
pub proof fn lemma_crc32_absorb_injective(x: u32, a: u8, y: u32, b: u8)
    requires
        crc32_absorb(x, a) == crc32_absorb(y, b),
    ensures
        a == b ==> x == y,
        x == y ==> a == b,
{
    let u0: u32 = x ^ (a as u32);
    let v0: u32 = y ^ (b as u32);
    let u1: u32 = crc32_shift(u0);
    let v1: u32 = crc32_shift(v0);
    let u2: u32 = crc32_shift(u1);
    let v2: u32 = crc32_shift(v1);
    let u3: u32 = crc32_shift(u2);
    let v3: u32 = crc32_shift(v2);
    let u4: u32 = crc32_shift(u3);
    let v4: u32 = crc32_shift(v3);
    let u5: u32 = crc32_shift(u4);
    let v5: u32 = crc32_shift(v4);
    let u6: u32 = crc32_shift(u5);
    let v6: u32 = crc32_shift(v5);
    let u7: u32 = crc32_shift(u6);
    let v7: u32 = crc32_shift(v6);
    lemma_crc32_shift_injective(u7, v7);
    lemma_crc32_shift_injective(u6, v6);
    lemma_crc32_shift_injective(u5, v5);
    lemma_crc32_shift_injective(u4, v4);
    lemma_crc32_shift_injective(u3, v3);
    lemma_crc32_shift_injective(u2, v2);
    lemma_crc32_shift_injective(u1, v1);
    lemma_crc32_shift_injective(u0, v0);
    assert(x ^ (a as u32) == y ^ (b as u32) ==> (a == b ==> x == y) && (x == y ==> a == b))
        by (bit_vector);
}

/// The checksum detects every change of a single byte: a stream and the same
/// stream with one byte replaced by another value never share a checksum.
pub proof fn lemma_crc32_detects_changed_byte(s: Seq<u8>, i: int, b: u8)
    requires
        0 <= i < s.len(),
        b != s[i],
    ensures
        crc32(s.update(i, b)) != crc32(s),
{
    lemma_crc32_run_changed_byte(0xFFFF_FFFFu32, s, i, b);
    assert(!0u32 == 0xFFFF_FFFFu32) by (bit_vector);
    let changed: u32 = crc32_run(0xFFFF_FFFFu32, s.update(i, b));
    let kept: u32 = crc32_run(0xFFFF_FFFFu32, s);
    assert(!changed == !kept ==> changed == kept) by (bit_vector);
}

proof fn lemma_crc32_run_changed_byte(c: u32, s: Seq<u8>, i: int, b: u8)
    requires
        0 <= i < s.len(),
        b != s[i],
    ensures
        crc32_run(c, s.update(i, b)) != crc32_run(c, s),
    decreases s.len(),
{
    let t = s.update(i, b);
    if i == s.len() - 1 {
        assert(t.drop_last() =~= s.drop_last());
        if crc32_run(c, t) == crc32_run(c, s) {
            lemma_crc32_absorb_injective(
                crc32_run(c, t.drop_last()),
                t.last(),
                crc32_run(c, s.drop_last()),
                s.last(),
            );
        }
    } else {
        assert(t.drop_last() =~= s.drop_last().update(i, b));
        lemma_crc32_run_changed_byte(c, s.drop_last(), i, b);
        if crc32_run(c, t) == crc32_run(c, s) {
            lemma_crc32_absorb_injective(
                crc32_run(c, t.drop_last()),
                t.last(),
                crc32_run(c, s.drop_last()),
                s.last(),
            );
        }
    }
}

} // verus!
