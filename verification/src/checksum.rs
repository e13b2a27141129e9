//! The per-group checksum.
//!
//! The checksum of a group is taken over its label, the space that separates
//! label and value, and its value. The byte values are summed, the sum is
//! masked to its low six bits, and a fixed bias is added so that the result is
//! a printable character.

use vstd::prelude::*;
use crate::wire::SP;

verus! {

/// The bias added to the masked sum.
pub const BIAS: u8 = 0x20;

/// The sum of the byte values of `s`.
pub open spec fn byte_sum(s: Seq<u8>) -> nat
    decreases s.len(),
{
    if s.len() == 0 {
        0
    } else {
        byte_sum(s.drop_last()) + s.last() as nat
    }
}

/// The checksum that a group with this label and value should carry: the
/// sum of the bytes of the label, the separating space and the value, taken
/// modulo 64, which keeps its low six bits, plus the bias.
pub open spec fn checksum_of(label: Seq<u8>, value: Seq<u8>) -> u8 {
    ((byte_sum(label) + SP as nat + byte_sum(value)) % 64 + BIAS as nat) as u8
}

/// The sum of `s`, masked to six bits, continuing from a masked sum `acc`.
fn masked_sum(acc: u8, s: &[u8]) -> (r: u8)
    requires
        acc < 64,
    ensures
        r as nat == (acc as nat + byte_sum(s@)) % 64,
{
    let mut r: u8 = acc;
    let mut i: usize = 0;
    while i < s.len()
        invariant
            i <= s.len(),
            r as nat == (acc as nat + byte_sum(s@.take(i as int))) % 64,
        decreases s.len() - i,
    {
        let b: u8 = s[i];
        let low: u8 = b & 0x3F;
        assert(low == b % 64) by (bit_vector)
            requires
                low == b & 0x3F,
        ;
        assert(s@.take(i + 1).drop_last() == s@.take(i as int));
        let t: u8 = r + low;
        let m: u8 = t & 0x3F;
        assert(m == t % 64) by (bit_vector)
            requires
                m == t & 0x3F,
        ;
        r = m;
        i += 1;
    }
    assert(s@.take(s.len() as int) == s@);
    r
}

/// Computes the checksum of a group from its label and value.
///
/// The result depends on the bytes of label and value alone, and is a
/// printable character, from space to underscore.
pub fn checksum(label: &[u8], value: &[u8]) -> (c: u8)
    ensures
        c == checksum_of(label@, value@),
        0x20 <= c <= 0x5F,
{
    let a: u8 = masked_sum(0, label);
    let t: u8 = a + SP;
    let b: u8 = t & 0x3F;
    assert(b == t % 64) by (bit_vector)
        requires
            b == t & 0x3F,
    ;
    let s: u8 = masked_sum(b, value);
    s + BIAS
}

} // verus!
