//! What searching texts and cutting them into words means.

use crate::text::laws::{is_all_blank, lemma_join_from_front, lemma_trim_start_takes};
use crate::text::split::{
    find_char, find_text, has_text, join, lemma_find_char, lemma_find_char_is, lemma_find_text,
    replace_all, replace_char, replace_first, split, split_text, starts, strip_crs, trim_start,
    word_len, words,
};
use crate::text::{is_space, lower};
use vstd::prelude::*;

verus! {

/// Whether `p` stands in `s` at the place `i`.
pub open spec fn stands_at(s: Seq<char>, p: Seq<char>, i: int) -> bool {
    0 <= i && i + p.len() <= s.len() && s.subrange(i, i + p.len()) == p
}

/// A text is found at the first place where it stands, and nowhere if it stands nowhere.
pub proof fn lemma_text_is_found(s: Seq<char>, p: Seq<char>)
    ensures
        find_text(s, p) <= s.len() ==> stands_at(s, p, find_text(s, p)),
        forall|i: int| 0 <= i < find_text(s, p) ==> !#[trigger] stands_at(s, p, i),
        has_text(s, p) <==> exists|i: int| #[trigger] stands_at(s, p, i),
    decreases s.len(),
{
    lemma_find_text(s, p);
    assert(p.len() <= s.len() ==> s.subrange(0, p.len() as int) =~= s.take(p.len() as int));
    assert(starts(s, p) <==> stands_at(s, p, 0));
    if !starts(s, p) && s.len() > 0 {
        let rest = s.drop_first();
        lemma_text_is_found(rest, p);
        assert forall|i: int| 0 <= i implies stands_at(rest, p, i) == #[trigger] stands_at(
            s,
            p,
            i + 1,
        ) by {
            if i + p.len() <= rest.len() {
                assert(rest.subrange(i, i + p.len()) =~= s.subrange(i + 1, i + 1 + p.len()));
            }
        }
        let k = find_text(rest, p);
        assert(stands_at(rest, p, k) == stands_at(s, p, k + 1));
        assert forall|i: int| 0 <= i < find_text(s, p) implies !#[trigger] stands_at(s, p, i) by {
            if i > 0 {
                assert(stands_at(rest, p, i - 1) == stands_at(s, p, (i - 1) + 1));
            }
        }
    }
    if find_text(s, p) <= s.len() {
        assert(stands_at(s, p, find_text(s, p)));
    }
    if exists|i: int| #[trigger] stands_at(s, p, i) {
        let i = choose|i: int| #[trigger] stands_at(s, p, i);
        if !(find_text(s, p) <= s.len()) {
            assert(i < find_text(s, p));
        }
    }
}

/// A text has in it what stands between its parts.
pub proof fn lemma_part_is_found(a: Seq<char>, p: Seq<char>, b: Seq<char>)
    ensures
        has_text(a + p + b, p),
{
    let s = a + p + b;
    assert(s.subrange(a.len() as int, a.len() as int + p.len()) =~= p);
    assert(stands_at(s, p, a.len() as int));
    lemma_text_is_found(s, p);
}

/// The first place of a text is replaced, and all else stays.
pub proof fn lemma_first_is_replaced(a: Seq<char>, p: Seq<char>, b: Seq<char>, by: Seq<char>)
    requires
        forall|i: int| 0 <= i < a.len() ==> !#[trigger] stands_at(a + p + b, p, i),
    ensures
        replace_first(a + p + b, p, by) == a + by + b,
{
    let s = a + p + b;
    let k = a.len() as int;
    assert(s.subrange(k, k + p.len()) =~= p);
    assert(stands_at(s, p, k));
    lemma_text_is_found(s, p);
    let f = find_text(s, p);
    if f < k {
        assert(stands_at(s, p, f));
    }
    if f > k {
        assert(!stands_at(s, p, k));
    }
    assert(s.take(k) =~= a);
    assert(s.skip(k + p.len()) =~= b);
}

/// A text without the one that is to be replaced stays as it is.
pub proof fn lemma_nothing_is_replaced(s: Seq<char>, p: Seq<char>, by: Seq<char>)
    requires
        !has_text(s, p),
    ensures
        replace_first(s, p, by) == s,
        replace_all(s, p, by) == s,
{
}

/// Replacing a character goes through a text part by part.
pub proof fn lemma_replace_char_by_parts(a: Seq<char>, b: Seq<char>, c: char, by: Seq<char>)
    ensures
        replace_char(a + b, c, by) == replace_char(a, c, by) + replace_char(b, c, by),
        replace_char(seq![c], c, by) == by,
    decreases b.len(),
{
    if b.len() == 0 {
        assert(a + b =~= a);
        assert(replace_char(a, c, by) + replace_char(b, c, by) =~= replace_char(a, c, by));
    } else {
        lemma_replace_char_by_parts(a, b.drop_last(), c, by);
        assert((a + b).drop_last() =~= a + b.drop_last());
        assert((a + b).last() == b.last());
        assert(replace_char(a + b, c, by) =~= replace_char(a, c, by) + replace_char(b, c, by));
    }
    assert(seq![c].drop_last() =~= seq![]);
    assert(replace_char(seq![], c, by) =~= seq![]);
    assert(replace_char(seq![c], c, by) =~= by);
}

/// A text without a character stays as it is where that is replaced.
pub proof fn lemma_replace_char_keeps(s: Seq<char>, c: char, by: Seq<char>)
    requires
        !s.contains(c),
    ensures
        replace_char(s, c, by) == s,
    decreases s.len(),
{
    if s.len() > 0 {
        let most = s.drop_last();
        assert(s.contains(s[s.len() - 1]));
        assert forall|i: int| 0 <= i < most.len() implies most[i] != c by {
            assert(s.contains(s[i]));
        }
        lemma_replace_char_keeps(most, c, by);
        assert(replace_char(s, c, by) =~= s);
    } else {
        assert(replace_char(s, c, by) =~= s);
    }
}

/// To replace a character is to cut the text at it and to join the pieces with what
/// takes its place.
pub proof fn lemma_replacing_is_cutting_and_joining(s: Seq<char>, c: char, by: Seq<char>)
    ensures
        replace_char(s, c, by) == join(split(s, c), by),
        join(split(s, c), seq![c]) == s,
        split(s, c).len() > 0,
    decreases s.len(),
{
    lemma_find_char(s, c);
    let k = find_char(s, c);
    if 0 <= k < s.len() {
        let (head, rest) = (s.take(k), s.skip(k + 1));
        lemma_replacing_is_cutting_and_joining(rest, c, by);
        assert(s =~= head + (seq![c] + rest));
        assert forall|i: int| 0 <= i < head.len() implies head[i] != c by {
            assert(head[i] == s[i]);
        }
        lemma_replace_char_keeps(head, c, by);
        lemma_replace_char_by_parts(head, seq![c] + rest, c, by);
        lemma_replace_char_by_parts(seq![c], rest, c, by);
        let parts = split(s, c);
        assert(parts.drop_first() =~= split(rest, c));
        lemma_join_from_front(parts, by);
        lemma_join_from_front(parts, seq![c]);
        assert(replace_char(s, c, by) =~= head + by + join(split(rest, c), by));
        assert(join(parts, seq![c]) =~= s);
    } else {
        assert forall|i: int| 0 <= i < s.len() implies s[i] != c by {}
        lemma_replace_char_keeps(s, c, by);
    }
}

/// Cutting at a character undoes joining with it.
pub proof fn lemma_cutting_undoes_joining(parts: Seq<Seq<char>>, c: char)
    requires
        parts.len() > 0,
        forall|i: int| 0 <= i < parts.len() ==> !(#[trigger] parts[i]).contains(c),
    ensures
        split(join(parts, seq![c]), c) == parts,
    decreases parts.len(),
{
    let s = join(parts, seq![c]);
    let first = parts[0];
    assert forall|i: int| 0 <= i < first.len() implies first[i] != c by {
        assert(first.contains(first[i]));
    }
    if parts.len() == 1 {
        lemma_find_char_is(s, c, s.len() as int);
        assert(seq![s] =~= parts);
    } else {
        let rest = parts.drop_first();
        lemma_join_from_front(parts, seq![c]);
        assert forall|i: int| 0 <= i < rest.len() implies !(#[trigger] rest[i]).contains(c) by {
            assert(rest[i] == parts[i + 1]);
        }
        lemma_cutting_undoes_joining(rest, c);
        let k = first.len() as int;
        assert(s[k] == c);
        lemma_find_char_is(s, c, k);
        assert(s.take(k) =~= first);
        assert(s.skip(k + 1) =~= join(rest, seq![c]));
        assert(seq![first] + rest =~= parts);
    }
}

/// To replace every place of a text is to cut there and to join the pieces with what
/// takes its place.
pub proof fn lemma_replacing_all(s: Seq<char>, p: Seq<char>, by: Seq<char>)
    requires
        p.len() > 0,
    ensures
        replace_all(s, p, by) == join(split_text(s, p), by),
        split_text(s, p).len() > 0,
        join(split_text(s, p), p) == s,
    decreases s.len(),
{
    lemma_text_is_found(s, p);
    lemma_find_text(s, p);
    let k = find_text(s, p);
    if k <= s.len() {
        assert(stands_at(s, p, k));
        let (head, rest) = (s.take(k), s.skip(k + p.len()));
        lemma_replacing_all(rest, p, by);
        let parts = split_text(s, p);
        assert(parts.drop_first() =~= split_text(rest, p));
        lemma_join_from_front(parts, by);
        lemma_join_from_front(parts, p);
        assert(replace_all(s, p, by) =~= head + by + join(split_text(rest, p), by));
        assert(join(parts, p) =~= head + p + rest);
        assert(s.subrange(k, k + p.len()) =~= p);
        assert(head + p + rest =~= s);
    }
}

proof fn lemma_word_len_is(w: Seq<char>, rest: Seq<char>)
    requires
        forall|i: int| 0 <= i < w.len() ==> !is_space(#[trigger] w[i]),
        rest.len() > 0 ==> is_space(rest[0]),
    ensures
        word_len(w + rest) == w.len(),
    decreases w.len(),
{
    let s = w + rest;
    if w.len() > 0 {
        assert(s[0] == w[0]);
        assert(s.drop_first() =~= w.drop_first() + rest);
        assert forall|i: int| 0 <= i < w.drop_first().len() implies !is_space(
            #[trigger] w.drop_first()[i],
        ) by {
            assert(!is_space(w[i + 1]));
        }
        lemma_word_len_is(w.drop_first(), rest);
    } else {
        assert(s =~= rest);
    }
}

/// Whether a text is one word.
pub open spec fn is_word(w: Seq<char>) -> bool {
    w.len() > 0 && forall|i: int| 0 <= i < w.len() ==> !is_space(#[trigger] w[i])
}

/// The words of a text are the runs between its blanks, one after the other.
pub proof fn lemma_words_are_runs(blanks: Seq<char>, w: Seq<char>, rest: Seq<char>)
    requires
        is_all_blank(blanks),
        is_word(w),
        rest.len() > 0 ==> is_space(rest[0]),
    ensures
        words(blanks + w + rest) == seq![w] + words(rest),
{
    let s = blanks + w + rest;
    assert(!is_space(w[0]));
    assert(s =~= blanks + (w + rest));
    lemma_trim_start_takes(blanks, w + rest);
    lemma_word_len_is(w, rest);
    let t = trim_start(s);
    assert(t.take(w.len() as int) =~= w);
    assert(t.skip(w.len() as int) =~= rest);
}

/// A text of blanks has no words.
pub proof fn lemma_blanks_have_no_words(blanks: Seq<char>)
    requires
        is_all_blank(blanks),
    ensures
        words(blanks) == Seq::<Seq<char>>::empty(),
{
    lemma_trim_start_takes(blanks, seq![]);
    assert(blanks + Seq::<char>::empty() =~= blanks);
}

/// The carriage returns at the end of a line are taken, all of them and nothing else.
pub proof fn lemma_crs_are_taken(body: Seq<char>, crs: Seq<char>)
    requires
        body.len() > 0 ==> body.last() != '\r',
        forall|i: int| 0 <= i < crs.len() ==> #[trigger] crs[i] == '\r',
    ensures
        strip_crs(body + crs) == body,
    decreases crs.len(),
{
    let s = body + crs;
    if crs.len() > 0 {
        assert(crs[crs.len() - 1] == '\r');
        assert(s.last() == '\r');
        assert(s.drop_last() =~= body + crs.drop_last());
        lemma_crs_are_taken(body, crs.drop_last());
    } else {
        assert(s =~= body);
    }
}

/// Lowering a text changes its capital letters alone, to the letters that they are the
/// capitals of, and is done once.
pub proof fn lemma_lowered(s: Seq<char>, i: int)
    requires
        0 <= i < s.len(),
    ensures
        lower(s).len() == s.len(),
        lower(lower(s)) == lower(s),
        'A' <= s[i] <= 'Z' ==> lower(s)[i] as int - 'a' as int == s[i] as int - 'A' as int,
        !('A' <= s[i] <= 'Z') ==> lower(s)[i] == s[i],
{
    assert(lower(lower(s)) =~= lower(s));
}

} // verus!
