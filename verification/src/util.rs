//! Small helpers on text.
use vstd::prelude::*;

use crate::text::{from_chars, to_chars};

verus! {

/// The number of bytes of the UTF-8 encoding of `c`.
pub open spec fn utf8_len(c: char) -> int {
    if (c as u32) < 0x80 {
        1
    } else if (c as u32) < 0x800 {
        2
    } else if (c as u32) < 0x10000 {
        3
    } else {
        4
    }
}

/// The number of bytes of the UTF-8 encoding of `s`.
pub open spec fn utf8_width(s: Seq<char>) -> int
    decreases s.len(),
{
    if s.len() == 0 {
        0
    } else {
        utf8_width(s.drop_last()) + utf8_len(s.last())
    }
}

/// `k` characters of `s` are the longest prefix whose encoding fits in `len` bytes.
pub open spec fn fits_utf8_prefix(s: Seq<char>, len: int, k: int) -> bool {
    &&& 0 <= k <= s.len()
    &&& utf8_width(s.take(k)) <= len
    &&& k < s.len() ==> utf8_width(s.take(k + 1)) > len
}

/// The longest prefix of `s` whose UTF-8 encoding fits in `len` bytes.
pub open spec fn truncated_utf8(s: Seq<char>, len: int) -> Seq<char> {
    s.take(choose|k: int| fits_utf8_prefix(s, len, k))
}

/// A longer prefix is at least as wide.
proof fn lemma_utf8_width_monotone(s: Seq<char>, i: int, j: int)
    requires
        0 <= i <= j <= s.len(),
    ensures
        utf8_width(s.take(i)) <= utf8_width(s.take(j)),
    decreases j - i,
{
    if i < j {
        lemma_utf8_width_monotone(s, i, j - 1);
        assert(s.take(j).drop_last() =~= s.take(j - 1));
    }
}

/// Only one length of prefix is the longest that fits.
proof fn lemma_fits_utf8_prefix_unique(s: Seq<char>, len: int, k: int)
    requires
        fits_utf8_prefix(s, len, k),
    ensures
        truncated_utf8(s, len) == s.take(k),
{
    let c = choose|c: int| fits_utf8_prefix(s, len, c);
    assert(fits_utf8_prefix(s, len, c));
    if c < k {
        lemma_utf8_width_monotone(s, c + 1, k);
    }
    if k < c {
        lemma_utf8_width_monotone(s, k + 1, c);
    }
}

/// The number of bytes of the UTF-8 encoding of `c`
fn char_len_utf8(c: char) -> (r: usize)
    ensures
        r == utf8_len(c),
{
    let n = c as u32;
    if n < 0x80 {
        1
    } else if n < 0x800 {
        2
    } else if n < 0x10000 {
        3
    } else {
        4
    }
}

/// Truncate a utf-8 string to at most `len` bytes, keeping whole characters: the longest
/// prefix of characters whose encoding fits in `len` bytes
pub fn truncate_str_utf8(string: &str, len: usize) -> (r: String)
    ensures
        r@.is_prefix_of(string@),
        utf8_width(r@) <= len,
        r@.len() < string@.len() ==> utf8_width(string@.take(r@.len() as int + 1)) > len,
        r@ == truncated_utf8(string@, len as int),
{
    let chars = to_chars(string);
    let mut width: usize = 0;
    let mut k: usize = 0;
    assert(chars@.take(0) =~= Seq::<char>::empty());
    while k < chars.len()
        invariant
            0 <= k <= chars.len(),
            width == utf8_width(chars@.take(k as int)),
            width <= len,
        ensures
            0 <= k <= chars.len(),
            width == utf8_width(chars@.take(k as int)),
            width <= len,
            k < chars.len() ==> utf8_width(chars@.take(k + 1)) > len,
        decreases chars.len() - k,
    {
        let w = char_len_utf8(chars[k]);
        assert(chars@.take(k + 1).drop_last() =~= chars@.take(k as int));
        if w > len - width {
            break;
        }
        width = width + w;
        k += 1;
    }
    let mut out: Vec<char> = Vec::new();
    let mut i: usize = 0;
    while i < k
        invariant
            0 <= i <= k <= chars.len(),
            out@ == chars@.take(i as int),
        decreases k - i,
    {
        out.push(chars[i]);
        assert(out@ =~= chars@.take(i + 1));
        i += 1;
    }
    assert(out@.is_prefix_of(string@)) by {
        assert(string@.subrange(0, out@.len() as int) =~= out@);
    }
    proof {
        lemma_fits_utf8_prefix_unique(string@, len as int, k as int);
    }
    from_chars(&out)
}

} // verus!
