//! Text of log lines.

use vstd::prelude::*;
use vstd::utf8::encode_utf8;

verus! {

/// The decimal digits of a number.
pub open spec fn decimal(n: nat) -> Seq<u8>
    decreases n,
{
    if n < 10 {
        seq![(48 + n) as u8]
    } else {
        decimal(n / 10).push((48 + n % 10) as u8)
    }
}

/// Appends a text.
pub fn push_text(out: &mut Vec<u8>, text: &str)
    ensures
        final(out)@ == old(out)@ + encode_utf8(text@),
{
    out.extend_from_slice(text.as_bytes());
    assert(out@ =~= old(out)@ + encode_utf8(text@));
}

/// Appends the decimal digits of a number.
pub fn push_decimal(out: &mut Vec<u8>, n: u64)
    ensures
        final(out)@ == old(out)@ + decimal(n as nat),
    decreases n,
{
    if n >= 10 {
        push_decimal(out, n / 10);
    }
    out.push(48 + (n % 10) as u8);
    assert(out@ =~= old(out)@ + decimal(n as nat));
}

/// Whether `needle` stands somewhere in `text`.
pub fn contains(text: &[u8], needle: &[u8]) -> (r: bool)
    ensures
        r == exists|i: int|
            0 <= i <= text@.len() - needle@.len() && #[trigger] text@.subrange(
                i,
                i + needle@.len(),
            ) == needle@,
{
    if needle.len() > text.len() {
        return false;
    }
    let last: usize = text.len() - needle.len();
    let mut i: usize = 0;
    while i <= last
        invariant
            last == text@.len() - needle@.len(),
            i <= last + 1,
            forall|k: int|
                0 <= k < i ==> #[trigger] text@.subrange(k, k + needle@.len()) != needle@,
        decreases last + 1 - i,
    {
        let mut n: usize = 0;
        while n < needle.len() && text[i + n] == needle[n]
            invariant
                i + needle.len() <= text.len(),
                n <= needle@.len(),
                forall|k: int| 0 <= k < n ==> text@[i + k] == needle@[k],
            decreases needle@.len() - n,
        {
            n = n + 1;
        }
        if n == needle.len() {
            assert(text@.subrange(i as int, i + needle@.len()) =~= needle@);
            return true;
        }
        assert(text@.subrange(i as int, i + needle@.len())[n as int] != needle@[n as int]);
        if i == last {
            return false;
        }
        i = i + 1;
    }
    false
}

} // verus!
