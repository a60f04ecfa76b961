//! Reading 32-bit integers in network byte order.

use vstd::arithmetic::div_mod::lemma_fundamental_div_mod_converse;
use vstd::prelude::*;

verus! {

/// The integer that four bytes spell, most significant byte first.
pub open spec fn spec_u32_from_be_bytes(s: Seq<u8>) -> u32
    recommends
        s.len() == 4,
{
    (s[0] as int * 0x100_0000 + s[1] as int * 0x1_0000 + s[2] as int * 0x100 + s[3] as int) as u32
}

/// The four bytes that spell an integer, most significant byte first.
#[verifier::opaque]
pub open spec fn spec_u32_to_be_bytes(x: u32) -> Seq<u8> {
    seq![
        (x as int / 0x100_0000) as u8,
        (x as int / 0x1_0000 % 0x100) as u8,
        (x as int / 0x100 % 0x100) as u8,
        (x as int % 0x100) as u8,
    ]
}

/// Reading back what was written gives the integer again.
pub proof fn lemma_u32_be_round_trip(x: u32)
    ensures
        spec_u32_to_be_bytes(x).len() == 4,
        spec_u32_from_be_bytes(spec_u32_to_be_bytes(x)) == x,
{
    reveal(spec_u32_to_be_bytes);
    let v = x as int;
    let q2 = v / 0x100;
    let q1 = v / 0x1_0000;
    let q0 = v / 0x100_0000;
    assert(q1 == q2 / 0x100 && q0 == q1 / 0x100) by {
        lemma_fundamental_div_mod_converse(
            v,
            0x1_0000,
            q2 / 0x100,
            (q2 % 0x100) * 0x100 + v % 0x100,
        );
        lemma_fundamental_div_mod_converse(
            v,
            0x100_0000,
            q1 / 0x100,
            (q1 % 0x100) * 0x1_0000 + (q2 % 0x100) * 0x100 + v % 0x100,
        );
    }
    assert(v == q0 * 0x100_0000 + (q1 % 0x100) * 0x1_0000 + (q2 % 0x100) * 0x100 + v % 0x100);
}

/// Writing what was read gives the four bytes again.
pub proof fn lemma_u32_be_bytes_round_trip(s: Seq<u8>)
    requires
        s.len() == 4,
    ensures
        spec_u32_to_be_bytes(spec_u32_from_be_bytes(s)) == s,
{
    reveal(spec_u32_to_be_bytes);
    let b0 = s[0] as int;
    let b1 = s[1] as int;
    let b2 = s[2] as int;
    let b3 = s[3] as int;
    let v = b0 * 0x100_0000 + b1 * 0x1_0000 + b2 * 0x100 + b3;
    assert(spec_u32_from_be_bytes(s) as int == v);
    lemma_fundamental_div_mod_converse(v, 0x100_0000, b0, b1 * 0x1_0000 + b2 * 0x100 + b3);
    lemma_fundamental_div_mod_converse(v, 0x1_0000, b0 * 0x100 + b1, b2 * 0x100 + b3);
    lemma_fundamental_div_mod_converse(b0 * 0x100 + b1, 0x100, b0, b1);
    lemma_fundamental_div_mod_converse(v, 0x100, b0 * 0x1_0000 + b1 * 0x100 + b2, b3);
    lemma_fundamental_div_mod_converse(b0 * 0x1_0000 + b1 * 0x100 + b2, 0x100, b0 * 0x100 + b1, b2);
    assert(spec_u32_to_be_bytes(spec_u32_from_be_bytes(s)) =~= s);
}

/// Four bytes that spell the same integer are the same four bytes.
pub proof fn lemma_u32_be_injective(s: Seq<u8>, t: Seq<u8>)
    requires
        s.len() == 4,
        t.len() == 4,
        spec_u32_from_be_bytes(s) == spec_u32_from_be_bytes(t),
    ensures
        s == t,
{
    lemma_u32_be_bytes_round_trip(s);
    lemma_u32_be_bytes_round_trip(t);
}

/// Reads the big-endian integer in the four bytes of `bytes` that begin at
/// `at`.
pub fn read_u32_be(bytes: &[u8], at: usize) -> (x: u32)
    requires
        at + 4 <= bytes@.len(),
    ensures
        x == spec_u32_from_be_bytes(bytes@.subrange(at as int, at + 4)),
{
    let b0: u32 = bytes[at] as u32;
    let b1: u32 = bytes[at + 1] as u32;
    let b2: u32 = bytes[at + 2] as u32;
    let b3: u32 = bytes[at + 3] as u32;
    b0 * 0x100_0000 + b1 * 0x1_0000 + b2 * 0x100 + b3
}

} // verus!
