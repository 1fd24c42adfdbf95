//! How many bytes text takes, and cutting it to a number of bytes.

use crate::text::string_of;
use vstd::prelude::*;
use vstd::slice::slice_subrange;
use vstd::utf8::{encode_scalar, encode_utf8};

verus! {

/// The number of bytes of a character.
pub open spec fn width(c: char) -> nat {
    encode_scalar(c as u32).len()
}

pub fn char_width(c: char) -> (r: usize)
    ensures
        r == width(c),
        1 <= r <= 4,
{
    let n: u32 = c as u32;
    if n <= 0x7F {
        1
    } else if n <= 0x7FF {
        2
    } else if n <= 0xFFFF {
        3
    } else {
        4
    }
}

/// How many characters from the front fit in `max` bytes.
pub open spec fn chars_within(s: Seq<char>, max: int) -> int
    decreases s.len(),
{
    if s.len() == 0 || width(s[0]) > max {
        0
    } else {
        1 + chars_within(s.drop_first(), max - width(s[0]))
    }
}

/// What fits in `max` bytes is all of the text exactly where the text is no
/// longer than that.
pub proof fn lemma_chars_within(s: Seq<char>, max: int)
    requires
        max >= 0,
    ensures
        0 <= chars_within(s, max) <= s.len(),
        encode_utf8(s.take(chars_within(s, max))).len() <= max,
        chars_within(s, max) == s.len() <==> encode_utf8(s).len() <= max,
    decreases s.len(),
{
    let k = chars_within(s, max);
    if s.len() == 0 {
        assert(s.take(0) =~= seq![]);
    } else if width(s[0]) > max {
        assert(s.take(0) =~= seq![]);
        assert(encode_utf8(s).len() >= width(s[0]));
    } else {
        let rest = s.drop_first();
        lemma_chars_within(rest, max - width(s[0]));
        assert(s.take(k).drop_first() =~= rest.take(k - 1));
        assert(s.take(k)[0] == s[0]);
    }
}

pub fn count_within(s: &[char], max: usize) -> (r: usize)
    ensures
        r == chars_within(s@, max as int),
        r <= s@.len(),
        r == s@.len() <==> encode_utf8(s@).len() <= max,
{
    let mut left: usize = max;
    let mut i: usize = 0;
    proof {
        assert(s@.skip(0) =~= s@);
        lemma_chars_within(s@, max as int);
    }
    while i < s.len()
        invariant
            i <= s@.len(),
            left <= max,
            chars_within(s@, max as int) == i + chars_within(s@.skip(i as int), left as int),
            chars_within(s@, max as int) == s@.len() <==> encode_utf8(s@).len() <= max,
        decreases s@.len() - i,
    {
        let w: usize = char_width(s[i]);
        if w > left {
            return i;
        }
        proof {
            assert(s@.skip(i as int).drop_first() =~= s@.skip(i + 1));
        }
        left = left - w;
        i = i + 1;
    }
    i
}

/// A text of at most `max` bytes as it is; of a longer one what fits, and then
/// `suffix`.
pub open spec fn cut_text(s: Seq<char>, max: int, suffix: Seq<char>) -> Seq<char> {
    if encode_utf8(s).len() <= max {
        s
    } else {
        s.take(chars_within(s, max)) + suffix
    }
}

pub fn cut(s: &[char], max: usize, suffix: &str) -> (r: String)
    ensures
        r@ == cut_text(s@, max as int, suffix@),
{
    let k: usize = count_within(s, max);
    if k == s.len() {
        return string_of(s);
    }
    let mut out = string_of(slice_subrange(s, 0, k));
    out.append(suffix);
    out
}

/// Text that is cut keeps as much of its front as fits: with one more character it would
/// be too long. Text that fits is not cut.
pub proof fn lemma_cut_keeps_what_fits(s: Seq<char>, max: int, suffix: Seq<char>)
    requires
        max >= 0,
    ensures
        encode_utf8(s).len() <= max ==> cut_text(s, max, suffix) == s,
        encode_utf8(s).len() > max ==> exists|k: int|
            0 <= k < s.len() && cut_text(s, max, suffix) == #[trigger] s.take(k) + suffix
                && encode_utf8(s.take(k)).len() <= max && encode_utf8(s.take(k + 1)).len() > max,
{
    if encode_utf8(s).len() > max {
        lemma_chars_within(s, max);
        lemma_no_more_fits(s, max);
        let k = chars_within(s, max);
        assert(cut_text(s, max, suffix) == s.take(k) + suffix);
    }
}

proof fn lemma_no_more_fits(s: Seq<char>, max: int)
    requires
        max >= 0,
        chars_within(s, max) < s.len(),
    ensures
        encode_utf8(s.take(chars_within(s, max) + 1)).len() > max,
    decreases s.len(),
{
    let k = chars_within(s, max);
    lemma_chars_within(s, max);
    let t = s.take(k + 1);
    assert(t[0] == s[0]);
    if width(s[0]) <= max {
        let rest = s.drop_first();
        lemma_no_more_fits(rest, max - width(s[0]));
        assert(t.drop_first() =~= rest.take(k));
    }
    assert(encode_utf8(t) == encode_scalar(t[0] as u32) + encode_utf8(t.drop_first()));
}

} // verus!
