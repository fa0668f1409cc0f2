//! The Internet checksum.
//!
//! A checksum is the one's complement of the one's complement sum of the covered
//! 16-bit words, with a zero byte behind an odd last byte.

use vstd::prelude::*;

verus! {

/// The big-endian 16-bit number at `at`.
pub open spec fn be16(s: Seq<u8>, at: int) -> int {
    s[at] * 256 + s[at + 1]
}

/// The two big-endian bytes of a 16-bit number.
pub open spec fn be16_bytes(value: nat) -> Seq<u8> {
    seq![(value / 256) as u8, (value % 256) as u8]
}

/// `s` with the bytes from `at` on replaced by `field`.
pub open spec fn splice(s: Seq<u8>, at: int, field: Seq<u8>) -> Seq<u8> {
    Seq::new(
        s.len(),
        |i: int|
            if at <= i < at + field.len() {
                field[i - at]
            } else {
                s[i]
            },
    )
}

/// The sum of the 16-bit words of `s`.
pub open spec fn word_sum(s: Seq<u8>) -> nat
    decreases s.len(),
{
    if s.len() == 0 {
        0
    } else if s.len() == 1 {
        s[0] as nat * 256
    } else {
        be16(s, 0) as nat + word_sum(s.subrange(2, s.len() as int))
    }
}

/// A sum reduced to 16 bits with end-around carries.
pub open spec fn folded(sum: nat) -> nat {
    if sum == 0 {
        0
    } else {
        ((sum - 1) % 0xffff + 1) as nat
    }
}

/// The one's complement of a folded sum.
pub open spec fn complemented(sum: nat) -> nat {
    (0xffff - folded(sum)) as nat
}

/// The words of the pseudo-header that precedes a transport segment.
pub open spec fn pseudo_header_sum(
    source: Seq<u8>,
    destination: Seq<u8>,
    protocol: u8,
    length: nat,
) -> nat {
    word_sum(source) + word_sum(destination) + protocol as nat + length
}

/// Exchanging one word of a byte string exchanges that word of its sum.
pub proof fn lemma_word_sum_splice(s: Seq<u8>, at: nat, value: nat)
    requires
        at % 2 == 0,
        at + 2 <= s.len(),
        value <= 0xffff,
    ensures
        word_sum(splice(s, at as int, be16_bytes(value))) + be16(s, at as int) == word_sum(s)
            + value,
    decreases at,
{
    let t = splice(s, at as int, be16_bytes(value));
    let rest = s.subrange(2, s.len() as int);
    if at == 0 {
        assert(t.subrange(2, t.len() as int) =~= rest);
    } else {
        lemma_word_sum_splice(rest, (at - 2) as nat, value);
        assert(t.subrange(2, t.len() as int) =~= splice(rest, at - 2, be16_bytes(value)));
    }
}

/// A sum that includes its own complement folds to all ones, which is what a receiver
/// checks.
pub proof fn complement_completes_the_sum(sum: nat)
    ensures
        folded(sum + complemented(sum)) == 0xffff,
        folded(sum) == 0xffff ==> folded(sum + 0xffff) == 0xffff,
{
    if sum > 0 {
        let f = (sum - 1) % 0xffff;
        let q = (sum - 1) / 0xffff;
        assert(sum - 1 == q * 0xffff + f);
        assert((q * 0xffff + 0xfffe) % 0xffff == 0xfffe);
        assert(((q + 1) * 0xffff + 0xfffe) % 0xffff == 0xfffe);
    }
}

} // verus!
