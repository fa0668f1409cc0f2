//! Integers as byte strings.
//!
//! The user-mode protocol is little-endian and packet headers are big-endian. Both
//! directions of both encodings are stated here once, over `nat`.

use vstd::prelude::*;

verus! {

/// The number whose little-endian digits, base 256, are `s`.
pub open spec fn le_value(s: Seq<u8>) -> nat
    decreases s.len(),
{
    if s.len() == 0 {
        0
    } else {
        s[0] as nat + 256 * le_value(s.drop_first())
    }
}

/// The `n` low little-endian digits of `x`, base 256.
pub open spec fn le_bytes(x: nat, n: nat) -> Seq<u8>
    decreases n,
{
    if n == 0 {
        Seq::empty()
    } else {
        seq![(x % 256) as u8] + le_bytes(x / 256, (n - 1) as nat)
    }
}

/// The number whose big-endian digits, base 256, are `s`.
pub open spec fn be_value(s: Seq<u8>) -> nat
    decreases s.len(),
{
    if s.len() == 0 {
        0
    } else {
        256 * be_value(s.drop_last()) + s.last() as nat
    }
}

/// The `n` low big-endian digits of `x`, base 256.
pub open spec fn be_bytes(x: nat, n: nat) -> Seq<u8>
    decreases n,
{
    if n == 0 {
        Seq::empty()
    } else {
        be_bytes(x / 256, (n - 1) as nat).push((x % 256) as u8)
    }
}

/// One more than the largest number that `n` bytes can hold.
pub open spec fn byte_range(n: nat) -> nat
    decreases n,
{
    if n == 0 {
        1
    } else {
        256 * byte_range((n - 1) as nat)
    }
}

/// `le_bytes` has exactly the requested length.
pub proof fn lemma_le_bytes_len(x: nat, n: nat)
    ensures
        le_bytes(x, n).len() == n,
    decreases n,
{
    if n > 0 {
        lemma_le_bytes_len(x / 256, (n - 1) as nat);
    }
}

/// `be_bytes` has exactly the requested length.
pub proof fn lemma_be_bytes_len(x: nat, n: nat)
    ensures
        be_bytes(x, n).len() == n,
    decreases n,
{
    if n > 0 {
        lemma_be_bytes_len(x / 256, (n - 1) as nat);
    }
}

/// Decoding a little-endian encoding gives the number back, whenever it fits.
pub proof fn le_decode_of_encode(x: nat, n: nat)
    requires
        x < byte_range(n),
    ensures
        le_value(le_bytes(x, n)) == x,
    decreases n,
{
    if n > 0 {
        let m = (n - 1) as nat;
        le_decode_of_encode(x / 256, m);
        lemma_le_bytes_len(x / 256, m);
        assert(le_bytes(x, n).drop_first() =~= le_bytes(x / 256, m));
    }
}

/// Decoding a big-endian encoding gives the number back, whenever it fits.
pub proof fn be_decode_of_encode(x: nat, n: nat)
    requires
        x < byte_range(n),
    ensures
        be_value(be_bytes(x, n)) == x,
    decreases n,
{
    if n > 0 {
        let m = (n - 1) as nat;
        be_decode_of_encode(x / 256, m);
        assert(be_bytes(x, n).drop_last() =~= be_bytes(x / 256, m));
    }
}

/// Encoding what a little-endian byte string holds gives the byte string back.
pub proof fn le_encode_of_decode(s: Seq<u8>)
    ensures
        le_bytes(le_value(s), s.len()) == s,
    decreases s.len(),
{
    if s.len() > 0 {
        le_encode_of_decode(s.drop_first());
        assert(le_value(s) / 256 == le_value(s.drop_first()));
        assert(s =~= seq![s[0]] + s.drop_first());
    }
}

/// Encoding what a big-endian byte string holds gives the byte string back.
pub proof fn be_encode_of_decode(s: Seq<u8>)
    ensures
        be_bytes(be_value(s), s.len()) == s,
    decreases s.len(),
{
    if s.len() > 0 {
        be_encode_of_decode(s.drop_last());
        assert(be_value(s) / 256 == be_value(s.drop_last()));
        assert(s =~= s.drop_last().push(s.last()));
    }
}

/// A byte string holds a number in the range of its length.
pub proof fn lemma_value_range(s: Seq<u8>)
    ensures
        le_value(s) < byte_range(s.len()),
        be_value(s) < byte_range(s.len()),
    decreases s.len(),
{
    if s.len() > 0 {
        lemma_value_range(s.drop_first());
        lemma_value_range(s.drop_last());
    }
}

/// The ranges of the field widths in use.
pub proof fn lemma_byte_ranges()
    ensures
        byte_range(1) == 0x100,
        byte_range(2) == 0x1_0000,
        byte_range(4) == 0x1_0000_0000,
        byte_range(8) == 0x1_0000_0000_0000_0000,
{
    reveal_with_fuel(byte_range, 9);
}

/// Appends the `width` low little-endian bytes of `value`.
pub fn push_le(out: &mut Vec<u8>, value: u64, width: usize)
    requires
        width <= 8,
    ensures
        final(out)@ == old(out)@ + le_bytes(value as nat, width as nat),
{
    let mut rest: u64 = value;
    let mut done: usize = 0;
    while done < width
        invariant
            done <= width,
            out@ + le_bytes(rest as nat, (width - done) as nat) == old(out)@ + le_bytes(
                value as nat,
                width as nat,
            ),
        decreases width - done,
    {
        let ghost before = out@;
        out.push((rest % 256) as u8);
        proof {
            let tail = le_bytes((rest / 256) as nat, (width - done - 1) as nat);
            assert(before + (seq![(rest % 256) as u8] + tail) =~= out@ + tail);
        }
        rest = rest / 256;
        done = done + 1;
    }
    assert(out@ + le_bytes(rest as nat, 0) =~= out@);
}

/// Appends the `width` low big-endian bytes of `value`.
pub fn push_be(out: &mut Vec<u8>, value: u64, width: usize)
    requires
        width <= 8,
    ensures
        final(out)@ == old(out)@ + be_bytes(value as nat, width as nat),
    decreases width,
{
    if width > 0 {
        push_be(out, value / 256, width - 1);
        out.push((value % 256) as u8);
    }
    assert(out@ =~= old(out)@ + be_bytes(value as nat, width as nat));
}

/// Reads `width` little-endian bytes at `offset`.
pub fn read_le(data: &[u8], offset: usize, width: usize) -> (value: u64)
    requires
        width <= 8,
        offset + width <= data@.len(),
    ensures
        value == le_value(data@.subrange(offset as int, offset + width)),
        value < byte_range(width as nat),
    decreases width,
{
    let ghost field = data@.subrange(offset as int, offset + width);
    assert(offset + width <= data.len());
    if width == 0 {
        return 0;
    }
    let rest: u64 = read_le(data, offset + 1, width - 1);
    proof {
        assert(field.drop_first() =~= data@.subrange(offset + 1, offset + width));
        lemma_value_range(field);
        lemma_range_bound(width as nat);
    }
    data[offset] as u64 + 256 * rest
}

/// Reads `width` big-endian bytes at `offset`.
pub fn read_be(data: &[u8], offset: usize, width: usize) -> (value: u64)
    requires
        width <= 8,
        offset + width <= data@.len(),
    ensures
        value == be_value(data@.subrange(offset as int, offset + width)),
        value < byte_range(width as nat),
    decreases width,
{
    let ghost field = data@.subrange(offset as int, offset + width);
    assert(offset + width <= data.len());
    if width == 0 {
        return 0;
    }
    let rest: u64 = read_be(data, offset, width - 1);
    proof {
        assert(field.drop_last() =~= data@.subrange(offset as int, offset + width - 1));
        lemma_value_range(field);
        lemma_range_bound(width as nat);
    }
    256 * rest + data[offset + width - 1] as u64
}

proof fn lemma_range_bound(n: nat)
    requires
        n <= 8,
    ensures
        byte_range(n) <= 0x1_0000_0000_0000_0000,
    decreases 8 - n,
{
    if n < 8 {
        lemma_range_bound(n + 1);
    } else {
        lemma_byte_ranges();
    }
}

} // verus!
