//! Searching, trimming and cutting text.

use crate::text::{is_space, lemma_views_push, views, whitespace};
use vstd::prelude::*;
use vstd::slice::slice_subrange;

verus! {

/// The index of the first `c` in `s`, or the length where there is none.
pub open spec fn find_char(s: Seq<char>, c: char) -> int
    decreases s.len(),
{
    if s.len() == 0 || s[0] == c {
        0
    } else {
        1 + find_char(s.drop_first(), c)
    }
}

/// What `find_char` points at: the first occurrence, or the end.
pub proof fn lemma_find_char(s: Seq<char>, c: char)
    ensures
        0 <= find_char(s, c) <= s.len(),
        find_char(s, c) < s.len() ==> s[find_char(s, c)] == c,
        forall|i: int| 0 <= i < find_char(s, c) ==> s[i] != c,
    decreases s.len(),
{
    if s.len() > 0 && s[0] != c {
        let rest = s.drop_first();
        lemma_find_char(rest, c);
        assert forall|i: int| 0 <= i < find_char(s, c) implies s[i] != c by {
            if i > 0 {
                assert(rest[i - 1] == s[i]);
            }
        }
    }
}

/// The first occurrence is where `find_char` points.
pub proof fn lemma_find_char_is(s: Seq<char>, c: char, k: int)
    requires
        0 <= k <= s.len(),
        k < s.len() ==> s[k] == c,
        forall|i: int| 0 <= i < k ==> s[i] != c,
    ensures
        find_char(s, c) == k,
{
    lemma_find_char(s, c);
    let f = find_char(s, c);
    if f < k {
        assert(s[f] != c);
    }
}

pub fn index_of(s: &[char], c: char) -> (r: usize)
    ensures
        r == find_char(s@, c),
        r <= s@.len(),
        r < s@.len() ==> s@[r as int] == c,
        forall|i: int| 0 <= i < r ==> s@[i] != c,
{
    let mut i: usize = 0;
    while i < s.len()
        invariant
            i <= s@.len(),
            forall|j: int| 0 <= j < i ==> s@[j] != c,
        decreases s@.len() - i,
    {
        if s[i] == c {
            proof {
                lemma_find_char_is(s@, c, i as int);
            }
            return i;
        }
        i = i + 1;
    }
    proof {
        lemma_find_char_is(s@, c, i as int);
    }
    i
}

pub open spec fn has_char(s: Seq<char>, c: char) -> bool {
    s.contains(c)
}

/// One past the index of the last `c` in `s`, or zero where there is none.
pub open spec fn after_last(s: Seq<char>, c: char) -> int
    decreases s.len(),
{
    if s.len() == 0 {
        0
    } else if s.last() == c {
        s.len() as int
    } else {
        after_last(s.drop_last(), c)
    }
}

pub fn last_index_end(s: &[char], c: char) -> (r: usize)
    ensures
        r == after_last(s@, c),
        r <= s@.len(),
        r > 0 ==> s@[r - 1] == c,
        forall|i: int| r <= i < s@.len() ==> s@[i] != c,
{
    let mut n: usize = s.len();
    proof {
        assert(s@.take(s@.len() as int) =~= s@);
    }
    while n > 0
        invariant
            n <= s@.len(),
            after_last(s@, c) == after_last(s@.take(n as int), c),
            forall|i: int| n <= i < s@.len() ==> s@[i] != c,
        decreases n,
    {
        if s[n - 1] == c {
            return n;
        }
        proof {
            assert(s@.take(n as int).drop_last() =~= s@.take(n - 1));
        }
        n = n - 1;
    }
    0
}

pub open spec fn starts(s: Seq<char>, p: Seq<char>) -> bool {
    p.len() <= s.len() && s.take(p.len() as int) == p
}

pub fn same(a: &[char], b: &[char]) -> (r: bool)
    ensures
        r == (a@ == b@),
{
    if a.len() != b.len() {
        return false;
    }
    let mut i: usize = 0;
    while i < a.len()
        invariant
            a@.len() == b@.len(),
            i <= a@.len(),
            forall|j: int| 0 <= j < i ==> a@[j] == b@[j],
        decreases a@.len() - i,
    {
        if a[i] != b[i] {
            return false;
        }
        i = i + 1;
    }
    proof {
        assert(a@ =~= b@);
    }
    true
}

/// Whether `s` is the text of `lit`.
pub fn is_text(s: &[char], lit: &str) -> (r: bool)
    ensures
        r == (s@ == lit@),
{
    let l = crate::text::chars_of(lit);
    same(s, l.as_slice())
}

/// The part of `s` behind the prefix `lit`.
pub fn after_prefix<'a>(s: &'a [char], lit: &str) -> (r: Option<&'a [char]>)
    ensures
        match r {
            Some(rest) => starts(s@, lit@) && rest@ == s@.skip(lit@.len() as int),
            None => !starts(s@, lit@),
        },
{
    let l = crate::text::chars_of(lit);
    if s.len() < l.len() {
        return None;
    }
    if same(slice_subrange(s, 0, l.len()), l.as_slice()) {
        Some(slice_subrange(s, l.len(), s.len()))
    } else {
        None
    }
}

pub fn starts_with(s: &[char], lit: &str) -> (r: bool)
    ensures
        r == starts(s@, lit@),
{
    after_prefix(s, lit).is_some()
}

/// `s` without leading white space.
pub open spec fn trim_start(s: Seq<char>) -> Seq<char>
    decreases s.len(),
{
    if s.len() > 0 && is_space(s[0]) {
        trim_start(s.drop_first())
    } else {
        s
    }
}

/// `s` without trailing white space.
pub open spec fn trim_end(s: Seq<char>) -> Seq<char>
    decreases s.len(),
{
    if s.len() > 0 && is_space(s.last()) {
        trim_end(s.drop_last())
    } else {
        s
    }
}

pub open spec fn trim(s: Seq<char>) -> Seq<char> {
    trim_end(trim_start(s))
}

pub fn trimmed_start(s: &[char]) -> (r: &[char])
    ensures
        r@ == trim_start(s@),
{
    let mut i: usize = 0;
    proof {
        assert(s@.skip(0) =~= s@);
    }
    while i < s.len() && whitespace(s[i])
        invariant
            i <= s@.len(),
            trim_start(s@) == trim_start(s@.skip(i as int)),
        decreases s@.len() - i,
    {
        proof {
            assert(s@.skip(i as int).drop_first() =~= s@.skip(i + 1));
        }
        i = i + 1;
    }
    slice_subrange(s, i, s.len())
}

pub fn trimmed_end(s: &[char]) -> (r: &[char])
    ensures
        r@ == trim_end(s@),
{
    let mut n: usize = s.len();
    proof {
        assert(s@.take(s@.len() as int) =~= s@);
    }
    while n > 0 && whitespace(s[n - 1])
        invariant
            n <= s@.len(),
            trim_end(s@) == trim_end(s@.take(n as int)),
        decreases n,
    {
        proof {
            assert(s@.take(n as int).drop_last() =~= s@.take(n - 1));
        }
        n = n - 1;
    }
    slice_subrange(s, 0, n)
}

pub fn trimmed(s: &[char]) -> (r: &[char])
    ensures
        r@ == trim(s@),
{
    trimmed_end(trimmed_start(s))
}

/// Whether `s` holds nothing but white space.
pub fn is_blank(s: &[char]) -> (r: bool)
    ensures
        r == (trim(s@).len() == 0),
{
    trimmed(s).len() == 0
}

/// `s` without the carriage returns at its end.
pub open spec fn strip_crs(s: Seq<char>) -> Seq<char>
    decreases s.len(),
{
    if s.len() > 0 && s.last() == '\r' {
        strip_crs(s.drop_last())
    } else {
        s
    }
}

pub fn without_crs(s: &[char]) -> (r: &[char])
    ensures
        r@ == strip_crs(s@),
{
    let mut n: usize = s.len();
    proof {
        assert(s@.take(s@.len() as int) =~= s@);
    }
    while n > 0 && s[n - 1] == '\r'
        invariant
            n <= s@.len(),
            strip_crs(s@) == strip_crs(s@.take(n as int)),
        decreases n,
    {
        proof {
            assert(s@.take(n as int).drop_last() =~= s@.take(n - 1));
        }
        n = n - 1;
    }
    slice_subrange(s, 0, n)
}

/// `s` cut at every `c`; one piece more than there are cuts.
pub open spec fn split(s: Seq<char>, c: char) -> Seq<Seq<char>>
    decreases s.len(),
{
    let k = find_char(s, c);
    if 0 <= k < s.len() {
        seq![s.take(k)] + split(s.skip(k + 1), c)
    } else {
        seq![s]
    }
}

pub fn split_at_char(s: &[char], c: char) -> (r: Vec<&[char]>)
    ensures
        views(r@) == split(s@, c),
        r@.len() > 0,
{
    broadcast use lemma_views_push;

    let mut out: Vec<&[char]> = Vec::new();
    let mut rest: &[char] = s;
    proof {
        assert(views(out@) + split(s@, c) =~= split(s@, c));
    }
    loop
        invariant
            views(out@) + split(rest@, c) == split(s@, c),
        decreases rest@.len(),
    {
        let k: usize = index_of(rest, c);
        if k < rest.len() {
            let ghost before = views(out@);
            let piece = slice_subrange(rest, 0, k);
            let tail = slice_subrange(rest, k + 1, rest.len());
            proof {
                assert(split(rest@, c) == seq![piece@] + split(tail@, c));
                assert(before.push(piece@) + split(tail@, c) =~= before + split(rest@, c));
            }
            out.push(piece);
            rest = tail;
        } else {
            let ghost before = views(out@);
            proof {
                assert(before.push(rest@) =~= before + split(rest@, c));
            }
            out.push(rest);
            return out;
        }
    }
}

/// A line's text without the carriage return of a `\r\n` line end.
pub open spec fn strip_cr(s: Seq<char>) -> Seq<char> {
    if s.len() > 0 && s.last() == '\r' {
        s.drop_last()
    } else {
        s
    }
}

/// The lines of `s`: cut at `\n` or `\r\n`, with no empty line behind a final
/// line end.
pub open spec fn lines(s: Seq<char>) -> Seq<Seq<char>>
    decreases s.len(),
{
    if s.len() == 0 {
        seq![]
    } else {
        let k = find_char(s, '\n');
        if 0 <= k < s.len() {
            seq![strip_cr(s.take(k))] + lines(s.skip(k + 1))
        } else {
            seq![s]
        }
    }
}

pub fn split_lines(s: &[char]) -> (r: Vec<&[char]>)
    ensures
        views(r@) == lines(s@),
{
    broadcast use lemma_views_push;

    let mut out: Vec<&[char]> = Vec::new();
    let mut rest: &[char] = s;
    proof {
        assert(views(out@) + lines(s@) =~= lines(s@));
    }
    while rest.len() > 0
        invariant
            views(out@) + lines(rest@) == lines(s@),
        decreases rest@.len(),
    {
        let ghost before = views(out@);
        let k: usize = index_of(rest, '\n');
        if k < rest.len() {
            let mut n: usize = k;
            if n > 0 && rest[n - 1] == '\r' {
                n = n - 1;
            }
            let piece = slice_subrange(rest, 0, n);
            let tail = slice_subrange(rest, k + 1, rest.len());
            proof {
                assert(piece@ =~= strip_cr(rest@.take(k as int)));
                assert(before.push(piece@) + lines(tail@) =~= before + lines(rest@));
            }
            out.push(piece);
            rest = tail;
        } else {
            let tail = slice_subrange(rest, rest.len(), rest.len());
            proof {
                assert(before.push(rest@) + lines(tail@) =~= before + lines(rest@));
            }
            out.push(rest);
            rest = tail;
        }
    }
    proof {
        assert(views(out@) + lines(rest@) =~= views(out@));
    }
    out
}

/// The length of the run of characters that are not white space at the front.
pub open spec fn word_len(s: Seq<char>) -> int
    decreases s.len(),
{
    if s.len() == 0 || is_space(s[0]) {
        0
    } else {
        1 + word_len(s.drop_first())
    }
}

pub proof fn lemma_word_len(s: Seq<char>)
    ensures
        0 <= word_len(s) <= s.len(),
        s.len() > 0 && !is_space(s[0]) ==> word_len(s) > 0,
    decreases s.len(),
{
    if s.len() > 0 && !is_space(s[0]) {
        lemma_word_len(s.drop_first());
    }
}

pub proof fn lemma_trim_start_len(s: Seq<char>)
    ensures
        trim_start(s).len() <= s.len(),
        trim_start(s).len() > 0 ==> !is_space(trim_start(s)[0]),
    decreases s.len(),
{
    if s.len() > 0 && is_space(s[0]) {
        lemma_trim_start_len(s.drop_first());
    }
}

/// The words of `s`: its longest runs of characters that are not white space.
pub open spec fn words(s: Seq<char>) -> Seq<Seq<char>>
    decreases s.len(),
{
    let t = trim_start(s);
    if t.len() == 0 {
        seq![]
    } else {
        let k = word_len(t);
        proof {
            lemma_trim_start_len(s);
            lemma_word_len(t);
        }
        seq![t.take(k)] + words(t.skip(k))
    }
}

fn measured_word(s: &[char]) -> (r: usize)
    ensures
        r == word_len(s@),
        r <= s@.len(),
{
    let mut i: usize = 0;
    proof {
        assert(s@.skip(0) =~= s@);
    }
    while i < s.len() && !whitespace(s[i])
        invariant
            i <= s@.len(),
            word_len(s@) == i + word_len(s@.skip(i as int)),
        decreases s@.len() - i,
    {
        proof {
            assert(s@.skip(i as int).drop_first() =~= s@.skip(i + 1));
        }
        i = i + 1;
    }
    i
}

pub fn split_words(s: &[char]) -> (r: Vec<&[char]>)
    ensures
        views(r@) == words(s@),
{
    broadcast use lemma_views_push;

    let mut out: Vec<&[char]> = Vec::new();
    let mut rest: &[char] = trimmed_start(s);
    proof {
        lemma_trim_start_twice(s@);
        assert(views(out@) + words(rest@) =~= words(s@));
    }
    while rest.len() > 0
        invariant
            rest@ == trim_start(rest@),
            views(out@) + words(rest@) == words(s@),
        decreases rest@.len(),
    {
        let ghost before = views(out@);
        let k: usize = measured_word(rest);
        proof {
            lemma_trim_start_len(rest@);
            lemma_word_len(rest@);
        }
        let piece = slice_subrange(rest, 0, k);
        let tail = slice_subrange(rest, k, rest.len());
        let next = trimmed_start(tail);
        proof {
            lemma_trim_start_len(tail@);
            lemma_trim_start_twice(tail@);
            assert(words(rest@) == seq![piece@] + words(tail@));
            assert(before.push(piece@) + words(next@) =~= before + words(rest@));
        }
        out.push(piece);
        rest = next;
    }
    proof {
        assert(views(out@) + words(rest@) =~= views(out@));
    }
    out
}

proof fn lemma_trim_start_twice(s: Seq<char>)
    ensures
        trim_start(trim_start(s)) == trim_start(s),
        words(trim_start(s)) == words(s),
    decreases s.len(),
{
    if s.len() > 0 && is_space(s[0]) {
        lemma_trim_start_twice(s.drop_first());
    }
}

/// The pieces of `parts` with `sep` between them.
pub open spec fn join(parts: Seq<Seq<char>>, sep: Seq<char>) -> Seq<char>
    decreases parts.len(),
{
    if parts.len() == 0 {
        seq![]
    } else if parts.len() == 1 {
        parts[0]
    } else {
        join(parts.drop_last(), sep) + sep + parts.last()
    }
}

pub fn joined(parts: &[String], sep: &str) -> (r: String)
    ensures
        r@ == join(views(parts@), sep@),
{
    let mut out = String::new();
    let mut i: usize = 0;
    proof {
        assert(views(parts@).take(0) =~= seq![]);
    }
    while i < parts.len()
        invariant
            i <= parts@.len(),
            out@ == join(views(parts@).take(i as int), sep@),
        decreases parts@.len() - i,
    {
        let ghost now = views(parts@).take(i as int + 1);
        proof {
            assert(now.drop_last() =~= views(parts@).take(i as int));
            assert(now.last() == parts@[i as int]@);
        }
        if i > 0 {
            out.append(sep);
        }
        out.append(parts[i].as_str());
        proof {
            if i == 0 {
                assert(out@ =~= parts@[0]@);
            }
        }
        i = i + 1;
    }
    proof {
        assert(views(parts@).take(parts@.len() as int) =~= views(parts@));
    }
    out
}

/// `s` with every `c` replaced by `by`.
pub open spec fn replace_char(s: Seq<char>, c: char, by: Seq<char>) -> Seq<char>
    decreases s.len(),
{
    if s.len() == 0 {
        seq![]
    } else {
        replace_char(s.drop_last(), c, by) + (if s.last() == c {
            by
        } else {
            seq![s.last()]
        })
    }
}

pub fn with_char_replaced(s: &[char], c: char, by: &str) -> (r: String)
    ensures
        r@ == replace_char(s@, c, by@),
{
    let mut out = String::new();
    let mut i: usize = 0;
    proof {
        assert(s@.take(0) =~= seq![]);
    }
    while i < s.len()
        invariant
            i <= s@.len(),
            out@ == replace_char(s@.take(i as int), c, by@),
        decreases s@.len() - i,
    {
        proof {
            assert(s@.take(i as int + 1).drop_last() =~= s@.take(i as int));
        }
        let ghost before = out@;
        if s[i] == c {
            out.append(by);
        } else {
            out.push(s[i]);
            proof {
                assert(before.push(s@[i as int]) =~= before + seq![s@[i as int]]);
            }
        }
        i = i + 1;
    }
    proof {
        assert(s@.take(s@.len() as int) =~= s@);
    }
    out
}

/// The index of the first occurrence of `p` in `s`, or the length plus one
/// where there is none.
pub open spec fn find_text(s: Seq<char>, p: Seq<char>) -> int
    decreases s.len(),
{
    if starts(s, p) {
        0
    } else if s.len() == 0 {
        1
    } else {
        1 + find_text(s.drop_first(), p)
    }
}

pub open spec fn has_text(s: Seq<char>, p: Seq<char>) -> bool {
    find_text(s, p) <= s.len()
}

pub fn position_of(s: &[char], lit: &str) -> (r: Option<usize>)
    ensures
        match r {
            Some(k) => k == find_text(s@, lit@) && k + lit@.len() <= s@.len() && starts(
                s@.skip(k as int),
                lit@,
            ),
            None => find_text(s@, lit@) == s@.len() + 1,
        },
{
    let mut i: usize = 0;
    proof {
        assert(s@.skip(0) =~= s@);
    }
    loop
        invariant
            i <= s@.len(),
            find_text(s@, lit@) == i + find_text(s@.skip(i as int), lit@),
        decreases s@.len() - i,
    {
        if starts_with(slice_subrange(s, i, s.len()), lit) {
            return Some(i);
        }
        if i == s.len() {
            return None;
        }
        proof {
            assert(s@.skip(i as int).drop_first() =~= s@.skip(i + 1));
        }
        i = i + 1;
    }
}

/// `s` with the first occurrence of `p` replaced by `by`.
pub open spec fn replace_first(s: Seq<char>, p: Seq<char>, by: Seq<char>) -> Seq<char> {
    let k = find_text(s, p);
    if 0 <= k <= s.len() {
        s.take(k) + by + s.skip(k + p.len())
    } else {
        s
    }
}

pub fn with_first_replaced(s: &[char], lit: &str, by: &str) -> (r: String)
    ensures
        r@ == replace_first(s@, lit@, by@),
{
    match position_of(s, lit) {
        Some(k) => {
            let total: usize = s.len();
            let n: usize = crate::text::chars_of(lit).len();
            let mut out = crate::text::string_of(slice_subrange(s, 0, k));
            out.append(by);
            crate::text::append_chars(&mut out, slice_subrange(s, k + n, total));
            out
        },
        None => crate::text::string_of(s),
    }
}

pub proof fn lemma_find_text(s: Seq<char>, p: Seq<char>)
    ensures
        0 <= find_text(s, p) <= s.len() + 1,
        find_text(s, p) <= s.len() ==> find_text(s, p) + p.len() <= s.len(),
    decreases s.len(),
{
    if !starts(s, p) && s.len() > 0 {
        lemma_find_text(s.drop_first(), p);
    }
}

/// `s` with every occurrence of `p` replaced by `by`, from the front on.
pub open spec fn replace_all(s: Seq<char>, p: Seq<char>, by: Seq<char>) -> Seq<char>
    decreases s.len(),
{
    let k = find_text(s, p);
    if p.len() > 0 && k <= s.len() {
        proof {
            lemma_find_text(s, p);
        }
        s.take(k) + by + replace_all(s.skip(k + p.len()), p, by)
    } else {
        s
    }
}

pub fn with_all_replaced(s: &[char], lit: &str, by: &str) -> (r: String)
    requires
        lit@.len() > 0,
    ensures
        r@ == replace_all(s@, lit@, by@),
{
    let n: usize = crate::text::chars_of(lit).len();
    let mut out = String::new();
    let mut rest: &[char] = s;
    proof {
        assert(out@ + replace_all(s@, lit@, by@) =~= replace_all(s@, lit@, by@));
    }
    loop
        invariant
            n == lit@.len(),
            n > 0,
            out@ + replace_all(rest@, lit@, by@) == replace_all(s@, lit@, by@),
        decreases rest@.len(),
    {
        let total: usize = rest.len();
        let ghost before = out@;
        match position_of(rest, lit) {
            Some(k) => {
                crate::text::append_chars(&mut out, slice_subrange(rest, 0, k));
                out.append(by);
                let tail = slice_subrange(rest, k + n, total);
                proof {
                    let t = replace_all(tail@, lit@, by@);
                    assert(tail@ =~= rest@.skip(k + n));
                    assert(before + rest@.take(k as int) + by@ + t =~= before + (rest@.take(
                        k as int,
                    ) + by@ + t));
                }
                rest = tail;
            },
            None => {
                crate::text::append_chars(&mut out, rest);
                return out;
            },
        }
    }
}

/// Whether two texts are the same but for the case of ASCII letters.
pub fn same_ignoring_case(a: &[char], lit: &str) -> (r: bool)
    ensures
        r == (crate::text::lower(a@) == crate::text::lower(lit@)),
{
    let l = crate::text::chars_of(lit);
    let x = crate::text::lowered(a);
    let y = crate::text::lowered(l.as_slice());
    same(x.as_slice(), y.as_slice())
}

/// Copies of owned texts.
pub fn copy_texts(parts: &[String]) -> (r: Vec<String>)
    ensures
        views(r@) == views(parts@),
{
    let mut out: Vec<String> = Vec::new();
    let mut i: usize = 0;
    while i < parts.len()
        invariant
            i <= parts@.len(),
            out@.len() == i,
            forall|j: int| 0 <= j < i ==> (#[trigger] out@[j])@ == parts@[j]@,
        decreases parts@.len() - i,
    {
        out.push(parts[i].clone());
        i = i + 1;
    }
    proof {
        assert(views(out@) =~= views(parts@));
    }
    out
}

/// The parts of `s` between the places where `sep` stands.
pub open spec fn split_text(s: Seq<char>, sep: Seq<char>) -> Seq<Seq<char>>
    decreases s.len(),
{
    let k = find_text(s, sep);
    if sep.len() == 0 || k >= s.len() {
        seq![s]
    } else {
        proof {
            lemma_find_text(s, sep);
        }
        seq![s.take(k)] + split_text(s.skip(k + sep.len()), sep)
    }
}

/// Splits a text at another text.
pub fn split_at_text<'a>(s: &'a [char], sep: &str) -> (r: Vec<&'a [char]>)
    requires
        sep@.len() > 0,
    ensures
        views(r@) == split_text(s@, sep@),
        r@.len() > 0,
{
    let ghost whole = split_text(s@, sep@);
    let width: usize = crate::text::chars_of(sep).len();
    let mut out: Vec<&'a [char]> = Vec::new();
    let mut rest: &'a [char] = s;
    proof {
        assert(views(out@) + split_text(rest@, sep@) =~= whole);
    }
    loop
        invariant
            sep@.len() > 0,
            width == sep@.len(),
            whole == split_text(s@, sep@),
            views(out@) + split_text(rest@, sep@) == whole,
        decreases rest@.len(),
    {
        let ghost before = out@;
        match position_of(rest, sep) {
            Some(k) => {
                let total: usize = rest.len();
                let part = slice_subrange(rest, 0, k);
                let after = slice_subrange(rest, k + width, total);
                out.push(part);
                proof {
                    lemma_find_text(rest@, sep@);
                    assert(part@ =~= rest@.take(k as int));
                    assert(after@ =~= rest@.skip(k + sep@.len()));
                    assert(views(out@) =~= views(before).push(part@));
                    assert(views(before).push(part@) + split_text(after@, sep@) =~= views(before) + (
                    seq![part@] + split_text(after@, sep@)));
                }
                rest = after;
            },
            None => {
                out.push(rest);
                proof {
                    assert(views(out@) =~= views(before).push(rest@));
                    assert(views(before).push(rest@) =~= views(before) + seq![rest@]);
                }
                return out;
            },
        }
    }
}

} // verus!
