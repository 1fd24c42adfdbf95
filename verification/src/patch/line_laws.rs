//! What hunks of lines mean: those that are written down are read as what was written,
//! and a file that one is applied to has its lines in the place that it names.

use crate::edits::laws::{lemma_edit_behind_others, lemma_one_edit};
use crate::edits::{edited, EditView};
use crate::patch::lines::{
    anchor_of, body_line, body_text, first_body_fault, hunk_edit, hunk_edits, hunks_of, line_number,
    patched, read_lines, Anchor, BodyLineView, HunkView, InsertTarget,
};
use crate::shape::lines_text;
use crate::text::laws::{
    are_lines, has_bare_ends, have_no_line_end, is_line, lemma_dec_is_digits, lemma_file_lines,
    lemma_lines_undo_join, lemma_strip_crs_keeps, lemma_trim_end_keeps_first,
    lemma_trim_start_takes, lemma_trim_takes,
};
use crate::text::more_laws::{is_word, lemma_blanks_have_no_words, lemma_words_are_runs};
use crate::text::number::{dec, lemma_dec_reads_back};
use crate::text::split::{join, lemma_word_len, starts, strip_crs, trim, word_len, words};
use crate::text::is_space;
use vstd::prelude::*;

verus! {

// ---------------------------------------------------------------------------
// Hunks as they are written
// ---------------------------------------------------------------------------
/// Where lines go, as a header writes it.
pub open spec fn written_target(target: InsertTarget) -> Seq<char> {
    match target {
        InsertTarget::Start => "0"@,
        InsertTarget::After(n) => dec(n as nat),
        InsertTarget::End => "-1"@,
    }
}

/// The header of a hunk.
pub open spec fn written_header(anchor: Anchor) -> Seq<char> {
    match anchor {
        Anchor::Replace { start, end } => "replace"@ + " "@ + dec(start as nat) + " "@ + dec(
            end as nat,
        ),
        Anchor::Delete { start, end } => "delete"@ + " "@ + dec(start as nat) + " "@ + dec(
            end as nat,
        ),
        Anchor::Insert { target } => "insert"@ + " "@ + written_target(target),
    }
}

/// A line of the body of a hunk.
pub open spec fn written_line(b: BodyLineView) -> Seq<char> {
    match b {
        BodyLineView::Literal(text) => "+"@ + text,
        BodyLineView::Copy { start, end } => "copy "@ + (dec(start as nat) + " "@ + dec(end as nat)),
    }
}

/// The lines of a hunk.
pub open spec fn written_hunk(h: HunkView) -> Seq<Seq<char>> {
    seq![written_header(h.anchor)] + Seq::new(h.body.len(), |i: int| written_line(h.body[i]))
}

/// The lines of hunks, one after the other.
pub open spec fn written_hunks(hunks: Seq<HunkView>) -> Seq<Seq<char>>
    decreases hunks.len(),
{
    if hunks.len() == 0 {
        seq![]
    } else {
        written_hunk(hunks[0]) + written_hunks(hunks.drop_first())
    }
}

/// Whether a line of a body can be written down.
pub open spec fn is_body_line(b: BodyLineView) -> bool {
    match b {
        BodyLineView::Literal(text) => is_line(text),
        BodyLineView::Copy { start, end } => 1 <= start <= end,
    }
}

/// Whether a hunk can be written down: its line numbers count from one, one that deletes
/// has no body, and any other has one.
pub open spec fn is_hunk(h: HunkView) -> bool {
    &&& forall|i: int| 0 <= i < h.body.len() ==> is_body_line(#[trigger] h.body[i])
    &&& match h.anchor {
        Anchor::Replace { start, end } => 1 <= start && 1 <= end && h.body.len() > 0,
        Anchor::Delete { start, end } => 1 <= start && 1 <= end && h.body.len() == 0,
        Anchor::Insert { target } => (target matches InsertTarget::After(n) ==> n >= 1)
            && h.body.len() > 0,
    }
}

pub open spec fn are_hunks(hunks: Seq<HunkView>, first: int) -> bool {
    forall|i: int| 0 <= i < hunks.len() ==> is_hunk(#[trigger] hunks[i]) && hunks[i].order == first + i
}

// ---------------------------------------------------------------------------
// Reading headers
// ---------------------------------------------------------------------------
pub proof fn lemma_digits_are_a_word(n: nat)
    ensures
        is_word(dec(n)),
{
    lemma_dec_is_digits(n);
}

pub proof fn lemma_two_words(a: Seq<char>, b: Seq<char>)
    requires
        is_word(a),
        is_word(b),
    ensures
        words(a + " "@ + b) == seq![a, b],
        is_one_plain_line(a + " "@ + b),
{
    reveal_strlit(" ");
    let nothing = Seq::<char>::empty();
    lemma_words_are_runs(nothing, a, " "@ + b);
    assert(nothing + a + (" "@ + b) =~= a + " "@ + b);
    lemma_words_are_runs(" "@, b, nothing);
    assert(" "@ + b + nothing =~= " "@ + b);
    lemma_blanks_have_no_words(nothing);
    assert(seq![b] + Seq::<Seq<char>>::empty() =~= seq![b]);
    assert(seq![a] + seq![b] =~= seq![a, b]);
    let s = a + " "@ + b;
    assert(s[0] == a[0] && s.last() == b.last());
    assert forall|i: int| 0 <= i < s.len() implies (#[trigger] s[i]) != '\n' && s[i] != '\r' by {
        if i < a.len() {
            assert(!is_space(a[i]));
        } else if i > a.len() {
            assert(!is_space(b[i - a.len() - 1]));
        }
    }
}

pub proof fn lemma_three_words(a: Seq<char>, b: Seq<char>, c: Seq<char>)
    requires
        is_word(a),
        is_word(b),
        is_word(c),
    ensures
        words(a + " "@ + b + " "@ + c) == seq![a, b, c],
        is_one_plain_line(a + " "@ + b + " "@ + c),
{
    reveal_strlit(" ");
    let nothing = Seq::<char>::empty();
    let tail = " "@ + c;
    lemma_words_are_runs(nothing, a, " "@ + b + tail);
    assert(nothing + a + (" "@ + b + tail) =~= a + " "@ + b + " "@ + c);
    lemma_words_are_runs(" "@, b, tail);
    lemma_words_are_runs(" "@, c, nothing);
    assert(" "@ + c + nothing =~= tail);
    lemma_blanks_have_no_words(nothing);
    assert(seq![c] + Seq::<Seq<char>>::empty() =~= seq![c]);
    assert(seq![a] + (seq![b] + seq![c]) =~= seq![a, b, c]);
    let s = a + " "@ + b + " "@ + c;
    assert(s[0] == a[0] && s.last() == c.last());
    assert forall|i: int| 0 <= i < s.len() implies (#[trigger] s[i]) != '\n' && s[i] != '\r' by {
        let p = a.len() as int;
        let q = p + 1 + b.len();
        if i < p {
            assert(!is_space(a[i]));
        } else if p < i < q {
            assert(!is_space(b[i - p - 1]));
        } else if i > q {
            assert(!is_space(c[i - q - 1]));
        }
    }
}

/// Whether a text is a line with no blank at its ends.
pub open spec fn is_one_plain_line(s: Seq<char>) -> bool {
    s.len() > 0 && has_bare_ends(s) && forall|i: int|
        0 <= i < s.len() ==> (#[trigger] s[i]) != '\n' && s[i] != '\r'
}

pub proof fn lemma_plain_line(s: Seq<char>)
    requires
        is_one_plain_line(s),
    ensures
        is_line(s),
        strip_crs(s) == s,
        trim(s) == s,
{
    let nothing = Seq::<char>::empty();
    lemma_trim_takes(nothing, s, nothing);
    assert(nothing + s + nothing =~= s);
    lemma_strip_crs_keeps(s);
}

pub proof fn lemma_header_words()
    ensures
        is_word("replace"@),
        is_word("delete"@),
        is_word("insert"@),
        is_word("copy"@),
        is_word("0"@),
        is_word("-1"@),
        "replace"@[0] == 'r',
        "delete"@[0] == 'd',
        "insert"@[0] == 'i',
        "copy"@[0] == 'c',
        "replace"@.len() == 7,
        "delete"@.len() == 6,
        "insert"@.len() == 6,
        "copy"@.len() == 4,
        "0"@ == dec(0),
        "0"@.len() == 1,
        "-1"@.len() == 2,
        "-1"@[0] == '-',
{
    reveal_strlit("replace");
    reveal_strlit("delete");
    reveal_strlit("insert");
    reveal_strlit("copy");
    reveal_strlit("0");
    reveal_strlit("-1");
    assert("0"@ =~= dec(0));
}

proof fn lemma_line_numbers(n: usize)
    requires
        n >= 1,
    ensures
        line_number(dec(n as nat)) == Ok::<usize, Seq<char>>(n),
        dec(n as nat) != "0"@,
        dec(n as nat) != "-1"@,
        is_word(dec(n as nat)),
{
    lemma_header_words();
    lemma_dec_reads_back(n as nat, usize::MAX as nat);
    lemma_dec_reads_back(0, usize::MAX as nat);
    lemma_dec_is_digits(n as nat);
}

proof fn lemma_header_reads(anchor: Anchor)
    requires
        match anchor {
            Anchor::Replace { start, end } => 1 <= start && 1 <= end,
            Anchor::Delete { start, end } => 1 <= start && 1 <= end,
            Anchor::Insert { target } => target matches InsertTarget::After(n) ==> n >= 1,
        },
    ensures
        anchor_of(written_header(anchor)) == Ok::<Option<Anchor>, Seq<char>>(Some(anchor)),
        is_one_plain_line(written_header(anchor)),
        written_header(anchor)[0] != '*',
{
    lemma_header_words();
    match anchor {
        Anchor::Replace { start, end } => {
            lemma_line_numbers(start);
            lemma_line_numbers(end);
            lemma_three_words("replace"@, dec(start as nat), dec(end as nat));
        },
        Anchor::Delete { start, end } => {
            lemma_line_numbers(start);
            lemma_line_numbers(end);
            lemma_three_words("delete"@, dec(start as nat), dec(end as nat));
        },
        Anchor::Insert { target } => {
            if let InsertTarget::After(n) = target {
                lemma_line_numbers(n);
            }
            lemma_two_words("insert"@, written_target(target));
        },
    }
}

/// The first word of a line that starts with no blank starts as the line does.
pub proof fn lemma_first_word(s: Seq<char>)
    requires
        s.len() > 0,
        !is_space(s[0]),
    ensures
        words(s).len() > 0,
        words(s)[0].len() > 0,
        words(s)[0][0] == s[0],
{
    lemma_trim_start_takes(seq![], s);
    assert(Seq::<char>::empty() + s =~= s);
    lemma_word_len(s);
    let k = word_len(s);
    assert(words(s)[0] == s.take(k));
}

proof fn lemma_body_line_reads(b: BodyLineView)
    requires
        is_body_line(b),
    ensures
        body_line(written_line(b)) == Ok::<BodyLineView, Seq<char>>(b),
        anchor_of(written_line(b)) == Ok::<Option<Anchor>, Seq<char>>(None),
        is_line(written_line(b)),
        strip_crs(written_line(b)) == written_line(b),
        trim(written_line(b)).len() > 0,
        trim(written_line(b)) != "*** Begin Patch"@,
{
    reveal_strlit("+");
    reveal_strlit("copy ");
    reveal_strlit(" ");
    reveal_strlit("*** Begin Patch");
    lemma_header_words();
    let s = written_line(b);
    match b {
        BodyLineView::Literal(text) => {
            assert(s[0] == '+');
            lemma_first_word(s);
            assert(s.take("+"@.len() as int) =~= "+"@);
            assert(s.skip("+"@.len() as int) =~= text);
            assert forall|i: int| 0 <= i < s.len() implies s[i] != '\n' by {
                if i > 0 {
                    assert(text.contains(text[i - 1]));
                }
            }
            if text.len() > 0 {
                assert(s.last() == text.last());
            }
            lemma_strip_crs_keeps(s);
            lemma_trim_start_takes(seq![], s);
            assert(Seq::<char>::empty() + s =~= s);
            lemma_trim_end_keeps_first(s);
            assert(trim(s)[0] == '+');
        },
        BodyLineView::Copy { start, end } => {
            lemma_line_numbers(start);
            lemma_line_numbers(end);
            let (x, y) = (dec(start as nat), dec(end as nat));
            let pair = x + " "@ + y;
            lemma_two_words(x, y);
            lemma_three_words("copy"@, x, y);
            reveal_strlit("copy");
            assert("copy"@ + " "@ =~= "copy "@);
            assert(s =~= "copy"@ + " "@ + x + " "@ + y);
            lemma_plain_line(s);
            lemma_plain_line(pair);
            let nothing = Seq::<char>::empty();
            assert(nothing + x + nothing =~= x && nothing + y + nothing =~= y);
            lemma_dec_is_digits(start as nat);
            lemma_dec_is_digits(end as nat);
            lemma_trim_takes(nothing, x, nothing);
            lemma_trim_takes(nothing, y, nothing);
            assert(s.take("copy "@.len() as int) =~= "copy "@);
            assert(s.skip("copy "@.len() as int) =~= pair);
            assert(s[0] == 'c');
            if starts(s, "+"@) {
                assert(s.take(1)[0] == s[0]);
            }
        },
    }
}

// ---------------------------------------------------------------------------
// Reading hunks
// ---------------------------------------------------------------------------
proof fn lemma_body_reads(
    earlier: Seq<HunkView>,
    h: HunkView,
    k: int,
    rest: Seq<Seq<char>>,
)
    requires
        is_hunk(h),
        0 <= k <= h.body.len(),
    ensures
        read_lines(
            earlier.push(HunkView { body: h.body.take(k), ..h }),
            Seq::new(h.body.len(), |i: int| written_line(h.body[i])).skip(k) + rest,
        ) == read_lines(earlier.push(h), rest),
    decreases h.body.len() - k,
{
    let all = Seq::new(h.body.len(), |i: int| written_line(h.body[i]));
    let now = HunkView { body: h.body.take(k), ..h };
    if k == h.body.len() {
        assert(h.body.take(k) =~= h.body);
        assert(all.skip(k) + rest =~= rest);
    } else {
        let b = h.body[k];
        assert(is_body_line(b));
        lemma_body_line_reads(b);
        lemma_body_reads(earlier, h, k + 1, rest);
        let more = all.skip(k) + rest;
        assert(more[0] == written_line(b));
        assert(more.drop_first() =~= all.skip(k + 1) + rest);
        let hunks = earlier.push(now);
        assert(hunks.last() == now);
        assert(hunks.drop_last() =~= earlier);
        assert(now.body.push(b) =~= h.body.take(k + 1));
    }
}

proof fn lemma_hunk_reads(earlier: Seq<HunkView>, h: HunkView, rest: Seq<Seq<char>>)
    requires
        is_hunk(h),
        h.order == earlier.len(),
    ensures
        read_lines(earlier, written_hunk(h) + rest) == read_lines(earlier.push(h), rest),
{
    let all = Seq::new(h.body.len(), |i: int| written_line(h.body[i]));
    let whole = written_hunk(h) + rest;
    lemma_header_reads(h.anchor);
    lemma_plain_line(written_header(h.anchor));
    assert(whole[0] == written_header(h.anchor));
    assert(whole.drop_first() =~= all.skip(0) + rest);
    lemma_body_reads(earlier, h, 0, rest);
    assert(h.body.take(0) =~= seq![]);
}

proof fn lemma_hunks_read(earlier: Seq<HunkView>, hunks: Seq<HunkView>)
    requires
        are_hunks(hunks, earlier.len() as int),
    ensures
        read_lines(earlier, written_hunks(hunks)) == Ok::<Seq<HunkView>, Seq<char>>(earlier + hunks),
        first_body_fault(hunks) is None,
    decreases hunks.len(),
{
    if hunks.len() == 0 {
        assert(earlier + hunks =~= earlier);
    } else {
        let h = hunks[0];
        let rest = hunks.drop_first();
        assert(is_hunk(h) && h.order == earlier.len());
        assert forall|i: int| 0 <= i < rest.len() implies is_hunk(#[trigger] rest[i]) && rest[i].order
            == earlier.push(h).len() + i by {
            assert(rest[i] == hunks[i + 1]);
        }
        lemma_hunk_reads(earlier, h, written_hunks(rest));
        lemma_hunks_read(earlier.push(h), rest);
        assert(earlier.push(h) + rest =~= earlier + hunks);
    }
}

proof fn lemma_hunks_are_lines(hunks: Seq<HunkView>, first: int)
    requires
        are_hunks(hunks, first),
        hunks.len() > 0,
    ensures
        are_lines(written_hunks(hunks)),
        written_hunks(hunks).len() > 0,
        written_hunks(hunks).last().len() > 0,
        forall|i: int|
            0 <= i < written_hunks(hunks).len() ==> trim(#[trigger] written_hunks(hunks)[i])
                != "*** Begin Patch"@,
    decreases hunks.len(),
{
    reveal_strlit("*** Begin Patch");
    let h = hunks[0];
    let rest = hunks.drop_first();
    let head = written_hunk(h);
    let tail = written_hunks(rest);
    let all = written_hunks(hunks);
    assert(is_hunk(h));
    lemma_header_reads(h.anchor);
    lemma_plain_line(written_header(h.anchor));
    assert forall|i: int| 0 <= i < head.len() implies is_line(#[trigger] head[i]) && trim(head[i])
        != "*** Begin Patch"@ && head[i].len() > 0 by {
        if i > 0 {
            assert(head[i] == written_line(h.body[i - 1]));
            assert(is_body_line(h.body[i - 1]));
            lemma_body_line_reads(h.body[i - 1]);
            reveal_strlit("+");
            reveal_strlit("copy ");
        } else {
            assert(head[0] == written_header(h.anchor));
            assert("*** Begin Patch"@[0] == '*');
        }
    }
    if rest.len() > 0 {
        assert forall|i: int| 0 <= i < rest.len() implies is_hunk(#[trigger] rest[i]) && rest[i].order
            == first + 1 + i by {
            assert(rest[i] == hunks[i + 1]);
        }
        lemma_hunks_are_lines(rest, first + 1);
        assert(all.last() == tail.last());
    } else {
        assert(tail =~= seq![]);
        assert(all.last() == head[head.len() - 1]);
    }
    assert forall|i: int| 0 <= i < all.len() implies is_line(#[trigger] all[i]) && trim(all[i])
        != "*** Begin Patch"@ by {
        if i < head.len() {
            assert(all[i] == head[i]);
        } else {
            assert(all[i] == tail[i - head.len()]);
        }
    }
}

/// Hunks that are written down are read as what was written, one after the other: each
/// with its place, its lines and the order in which it stands.
pub proof fn lemma_hunks_read_back(hunks: Seq<HunkView>)
    requires
        are_hunks(hunks, 0),
        hunks.len() > 0,
    ensures
        hunks_of(join(written_hunks(hunks), "\n"@)) == Ok::<Seq<HunkView>, Seq<char>>(hunks),
{
    lemma_hunks_are_lines(hunks, 0);
    lemma_lines_undo_join(written_hunks(hunks));
    lemma_hunks_read(seq![], hunks);
    assert(Seq::<HunkView>::empty() + hunks =~= hunks);
}

// ---------------------------------------------------------------------------
// What hunks do
// ---------------------------------------------------------------------------
/// The lines of a body are those of its parts, one after the other.
pub proof fn lemma_body_by_parts(
    a: Seq<BodyLineView>,
    b: Seq<BodyLineView>,
    rows: Seq<Seq<char>>,
)
    requires
        body_text(a, rows) is Ok,
        body_text(b, rows) is Ok,
    ensures
        body_text(a + b, rows) == Ok::<Seq<Seq<char>>, Seq<char>>(
            body_text(a, rows)->Ok_0 + body_text(b, rows)->Ok_0,
        ),
    decreases b.len(),
{
    if b.len() == 0 {
        assert(a + b =~= a);
        assert(body_text(a, rows)->Ok_0 + body_text(b, rows)->Ok_0 =~= body_text(a, rows)->Ok_0);
    } else {
        assert((a + b).drop_last() =~= a + b.drop_last());
        assert((a + b).last() == b.last());
        lemma_body_by_parts(a, b.drop_last(), rows);
        assert(body_text(a + b, rows)->Ok_0 =~= body_text(a, rows)->Ok_0 + body_text(
            b,
            rows,
        )->Ok_0);
    }
}

/// A line of a body that stands for itself is that line; one that copies is the lines of
/// the file that it names, and is refused where the file lacks one of them.
pub proof fn lemma_body_line_means(text: Seq<char>, start: usize, end: usize, rows: Seq<Seq<char>>)
    requires
        1 <= start <= end,
    ensures
        body_text(seq![BodyLineView::Literal(text)], rows) == Ok::<Seq<Seq<char>>, Seq<char>>(
            seq![text],
        ),
        body_text(seq![BodyLineView::Copy { start, end }], rows) is Ok <==> end <= rows.len(),
        end <= rows.len() ==> body_text(seq![BodyLineView::Copy { start, end }], rows) == Ok::<
            Seq<Seq<char>>,
            Seq<char>,
        >(rows.subrange(start - 1, end as int)),
{
    reveal_with_fuel(body_text, 2);
    let one = seq![BodyLineView::Literal(text)];
    let two = seq![BodyLineView::Copy { start, end }];
    assert(one.drop_last() =~= seq![]);
    assert(two.drop_last() =~= seq![]);
    assert(Seq::<Seq<char>>::empty().push(text) =~= seq![text]);
    if end <= rows.len() {
        assert(Seq::<Seq<char>>::empty() + rows.subrange(start - 1, end as int) =~= rows.subrange(
            start - 1,
            end as int,
        ));
    }
}

/// How many lines stand before what a hunk is about.
pub open spec fn lines_before(anchor: Anchor, total: int) -> int {
    match anchor {
        Anchor::Replace { start, .. } => start - 1,
        Anchor::Delete { start, .. } => start - 1,
        Anchor::Insert { target } => match target {
            InsertTarget::Start => 0,
            InsertTarget::After(n) => n as int,
            InsertTarget::End => total,
        },
    }
}

/// How many lines of the file a hunk takes away.
pub open spec fn lines_taken(anchor: Anchor) -> int {
    match anchor {
        Anchor::Replace { start, end } => end - start + 1,
        Anchor::Delete { start, end } => end - start + 1,
        Anchor::Insert { .. } => 0,
    }
}

/// Whether a file of `total` lines has the place that a hunk names.
pub open spec fn has_place(anchor: Anchor, total: int) -> bool {
    match anchor {
        Anchor::Replace { start, end } => 1 <= start <= end <= total,
        Anchor::Delete { start, end } => 1 <= start <= end <= total,
        Anchor::Insert { target } => target matches InsertTarget::After(n) ==> n <= total,
    }
}

/// One hunk is applied where the file has its place and the lines that it copies. It
/// puts the lines of its body in that place and leaves every other line, and the line
/// end behind the last, as it was.
pub proof fn lemma_hunk_changes_its_place(rows: Seq<Seq<char>>, closed: bool, h: HunkView)
    requires
        is_hunk(h),
        rows.len() > 1 || (rows.len() == 1 && rows[0].len() > 0),
        have_no_line_end(rows),
        closed || rows.last().len() > 0,
    ensures
        patched(lines_text(rows, closed), seq![h]) is Ok <==> has_place(
            h.anchor,
            rows.len() as int,
        ) && body_text(h.body, rows) is Ok,
        patched(lines_text(rows, closed), seq![h]) matches Ok(text) ==> {
            let s = lines_before(h.anchor, rows.len() as int);
            text == lines_text(
                rows.take(s) + body_text(h.body, rows)->Ok_0 + rows.skip(s + lines_taken(h.anchor)),
                closed,
            )
        },
{
    reveal_strlit("\n");
    let text = lines_text(rows, closed);
    let hunks = seq![h];
    lemma_file_lines(rows, closed);
    if closed {
        assert(text.last() == '\n');
    } else {
        assert(text =~= join(rows, "\n"@));
        let last = rows[rows.len() - 1];
        assert(!last.contains('\n'));
        assert(last.contains(last.last()));
        assert(text.last() == last.last());
    }
    reveal_with_fuel(hunk_edits, 2);
    assert(hunks.drop_last() =~= seq![]);
    if has_place(h.anchor, rows.len() as int) && body_text(h.body, rows) is Ok {
        let e = hunk_edit(h, rows)->Ok_0;
        assert(Seq::<EditView<Seq<char>>>::empty().push(e) =~= seq![e]);
        lemma_one_edit(rows, e);
    }
}

proof fn lemma_each_hunk_edits(hunks: Seq<HunkView>, lines: Seq<Seq<char>>)
    ensures
        hunk_edits(hunks, lines) is Ok <==> forall|i: int|
            0 <= i < hunks.len() ==> hunk_edit(#[trigger] hunks[i], lines) is Ok,
        hunk_edits(hunks, lines) matches Ok(edits) ==> edits.len() == hunks.len() && forall|i: int|
            0 <= i < hunks.len() ==> hunk_edit(hunks[i], lines) == Ok::<EditView<Seq<char>>, Seq<char>>(
                #[trigger] edits[i],
            ),
    decreases hunks.len(),
{
    if hunks.len() > 0 {
        let before = hunks.drop_last();
        lemma_each_hunk_edits(before, lines);
        if hunk_edits(before, lines) is Ok && hunk_edit(hunks.last(), lines) is Ok {
            let edits = hunk_edits(hunks, lines)->Ok_0;
            assert forall|i: int| 0 <= i < hunks.len() implies hunk_edit(#[trigger] hunks[i], lines)
                is Ok && hunk_edit(hunks[i], lines) == Ok::<EditView<Seq<char>>, Seq<char>>(edits[i]) by {
                if i < before.len() {
                    assert(before[i] == hunks[i]);
                    assert(hunk_edits(before, lines)->Ok_0[i] == edits[i]);
                }
            }
        } else if hunk_edits(before, lines) is Err {
            let i = choose|i: int| 0 <= i < before.len() && hunk_edit(#[trigger] before[i], lines) is Err;
            assert(hunks[i] == before[i]);
        } else {
            assert(hunk_edit(hunks[hunks.len() - 1], lines) is Err);
        }
    }
}

/// A hunk that lies behind all others changes its place in what the others leave: their
/// lines stay, and it takes away and puts in what it would alone.
pub proof fn lemma_hunk_behind_others(
    rows: Seq<Seq<char>>,
    closed: bool,
    hunks: Seq<HunkView>,
    h: HunkView,
    out: Seq<Seq<char>>,
)
    requires
        rows.len() > 1 || (rows.len() == 1 && rows[0].len() > 0),
        have_no_line_end(rows),
        closed || rows.last().len() > 0,
        has_place(h.anchor, rows.len() as int),
        body_text(h.body, rows) is Ok,
        forall|i: int|
            0 <= i < hunks.len() ==> has_place((#[trigger] hunks[i]).anchor, rows.len() as int)
                && body_text(hunks[i].body, rows) is Ok && hunks[i].order <= h.order && lines_before(
                hunks[i].anchor,
                rows.len() as int,
            ) + lines_taken(hunks[i].anchor) <= lines_before(h.anchor, rows.len() as int),
        hunk_edits(hunks, rows) matches Ok(edits) && edited(rows, edits) == Some(out),
    ensures
        patched(lines_text(rows, closed), hunks) == Ok::<Seq<char>, Seq<char>>(
            lines_text(out, closed),
        ),
        ({
            let p = out.len() - (rows.len() - lines_before(h.anchor, rows.len() as int));
            patched(lines_text(rows, closed), hunks.push(h)) == Ok::<Seq<char>, Seq<char>>(
                lines_text(
                    out.take(p) + body_text(h.body, rows)->Ok_0 + out.skip(
                        p + lines_taken(h.anchor),
                    ),
                    closed,
                ),
            )
        }),
{
    let text = lines_text(rows, closed);
    lemma_file_lines(rows, closed);
    lemma_file_is_closed(rows, closed);
    let all = hunks.push(h);
    assert(all.drop_last() =~= hunks);
    lemma_each_hunk_edits(hunks, rows);
    let edits = hunk_edits(hunks, rows)->Ok_0;
    let e = hunk_edit(h, rows)->Ok_0;
    assert(hunk_edits(all, rows) == Ok::<Seq<EditView<Seq<char>>>, Seq<char>>(edits.push(e)));
    assert forall|i: int| 0 <= i < edits.len() implies 0 <= (#[trigger] edits[i]).start
        <= edits[i].end <= rows.len() && edits[i].end <= e.start && edits[i].order <= e.order by {
        assert(has_place(hunks[i].anchor, rows.len() as int));
    }
    lemma_edit_behind_others(rows, edits, e);
}

proof fn lemma_file_is_closed(rows: Seq<Seq<char>>, closed: bool)
    requires
        rows.len() > 0,
        have_no_line_end(rows),
        closed || rows.last().len() > 0,
    ensures
        crate::shape::has_final_newline(lines_text(rows, closed)) == closed,
{
    reveal_strlit("\n");
    let text = lines_text(rows, closed);
    if closed {
        assert(text.last() == '\n');
    } else {
        assert(text =~= join(rows, "\n"@));
        let last = rows[rows.len() - 1];
        assert(!last.contains('\n'));
        assert(last.contains(last.last()));
        assert(text.last() == last.last());
    }
}

} // verus!
