//! What line instructions mean: every instruction that is written down is read as what
//! was written, and a file that one is carried out on has the lines that it asks for.

use crate::patch::has_envelope;
use crate::shape::{has_final_newline, lines_text};
use crate::text::laws::{
    are_lines, has_bare_ends, have_no_line_end, is_all_blank, is_line, lemma_dec_is_digits,
    lemma_file_lines, lemma_join_from_front, lemma_lines_undo_join, lemma_strip_crs_keeps,
    lemma_trim_end_keeps_first, lemma_trim_start_takes, lemma_trim_takes,
};
use crate::text::number::{dec, lemma_dec_reads_back};
use crate::text::split::{join, lemma_find_char_is, starts, strip_crs, trim};
use crate::text::{is_digit, is_space};
use crate::tools::file_action::line_patch::{
    block_end, delete_op, first_op_fault, first_taken, line_ops, move_op, new_text, number_of,
    op_fault, patch_fault, patch_lines, put_behind, puts_behind, range_of, read_ops, removal_at,
    replace_op, replaced_and_deleted, replacement_at, rewritten, stays, takes_away, target_of,
    LineInsertTarget, LinePatchOpView, LineRemoval,
};
use crate::tools::file_action::{is_unified, text_patched};
use vstd::prelude::*;

verus! {

// ---------------------------------------------------------------------------
// Instructions as they are written
// ---------------------------------------------------------------------------
/// Where lines go, as an instruction writes it.
pub open spec fn written_target(target: LineInsertTarget) -> Seq<char> {
    match target {
        LineInsertTarget::Start => "0"@,
        LineInsertTarget::End => "-1"@,
        LineInsertTarget::After(n) => dec(n as nat),
    }
}

/// The lines of an instruction, with `pad` wherever white space may stand.
pub open spec fn written(op: LinePatchOpView, pad: Seq<char>) -> Seq<Seq<char>> {
    match op {
        LinePatchOpView::Delete { start, end } => seq![
            pad + ("***DELETE***"@ + pad + (dec(start as nat) + pad + "-"@ + pad + dec(end as nat)))
                + pad,
        ],
        LinePatchOpView::Move { start, end, after } => seq![
            pad + ("***MOVE***"@ + pad + (dec(start as nat) + pad + "-"@ + pad + dec(end as nat)
                + pad + ","@ + pad + written_target(after))) + pad,
        ],
        LinePatchOpView::Append { after, lines } => seq![
            pad + ("***APPEND_HEAD***"@ + pad + written_target(after)) + pad,
        ] + lines + seq![pad + "***APPEND_END***"@ + pad],
        LinePatchOpView::Replace { line, text } => seq![
            pad + (dec(line as nat) + pad + ":"@ + text),
        ],
    }
}

/// The lines of several instructions, one after the other.
pub open spec fn all_written(ops: Seq<LinePatchOpView>, pad: Seq<char>) -> Seq<Seq<char>>
    decreases ops.len(),
{
    if ops.len() == 0 {
        seq![]
    } else {
        written(ops[0], pad) + all_written(ops.drop_first(), pad)
    }
}

/// The text of a patch.
pub open spec fn patch_of(ops: Seq<LinePatchOpView>, pad: Seq<char>) -> Seq<char> {
    join(all_written(ops, pad), "\n"@)
}

pub open spec fn is_target(target: LineInsertTarget) -> bool {
    target matches LineInsertTarget::After(n) ==> n >= 1
}

/// Whether a line can stand in an appended block: it does not close the block.
pub open spec fn is_block_line(line: Seq<char>) -> bool {
    is_line(line) && trim(line) != "***APPEND_END***"@
}

/// Whether an instruction can be written down: it names lines by their numbers, from one
/// on, and its texts are lines.
pub open spec fn is_writable(op: LinePatchOpView) -> bool {
    match op {
        LinePatchOpView::Delete { start, end } => 1 <= start <= end,
        LinePatchOpView::Move { start, end, after } => 1 <= start <= end && is_target(after),
        LinePatchOpView::Append { after, lines } => is_target(after) && forall|i: int|
            0 <= i < lines.len() ==> is_block_line(#[trigger] lines[i]),
        LinePatchOpView::Replace { line, text } => 1 <= line && is_line(text),
    }
}

pub open spec fn are_writable(ops: Seq<LinePatchOpView>) -> bool {
    forall|i: int| 0 <= i < ops.len() ==> is_writable(#[trigger] ops[i])
}

/// Whether white space stands on one line.
pub open spec fn is_pad(pad: Seq<char>) -> bool {
    is_all_blank(pad) && !pad.contains('\n') && !pad.contains('\r')
}

pub proof fn lemma_pad(pad: Seq<char>)
    requires
        is_pad(pad),
    ensures
        forall|i: int|
            0 <= i < pad.len() ==> is_space(#[trigger] pad[i]) && pad[i] != '\n' && pad[i] != '\r'
                && pad[i] != '-' && pad[i] != ',' && pad[i] != ':' && pad[i] != '*',
{
    assert forall|i: int| 0 <= i < pad.len() implies is_space(#[trigger] pad[i]) && pad[i] != '\n'
        && pad[i] != '\r' && pad[i] != '-' && pad[i] != ',' && pad[i] != ':' && pad[i] != '*' by {
        assert(pad.contains(pad[i]));
    }
}

proof fn lemma_number_reads(n: usize, zero: bool)
    requires
        n >= 1 || zero,
    ensures
        number_of(dec(n as nat), zero) == Some(n),
{
    lemma_dec_reads_back(n as nat, usize::MAX as nat);
}

proof fn lemma_target_reads(target: LineInsertTarget)
    requires
        is_target(target),
    ensures
        target_of(written_target(target)) == Some(target),
        written_target(target).len() > 0,
        has_bare_ends(written_target(target)),
        forall|i: int|
            0 <= i < written_target(target).len() ==> (#[trigger] written_target(target)[i]) != ','
                && written_target(target)[i] != '\n' && written_target(target)[i] != '\r',
{
    reveal_strlit("0");
    reveal_strlit("-1");
    match target {
        LineInsertTarget::Start => {
            assert("0"@ =~= dec(0));
            lemma_number_reads(0, true);
            assert("0"@.len() != "-1"@.len());
        },
        LineInsertTarget::End => {},
        LineInsertTarget::After(n) => {
            lemma_dec_is_digits(n as nat);
            lemma_number_reads(n, true);
            assert("-1"@[0] == '-');
            assert(dec(n as nat)[0] != '-');
        },
    }
}

proof fn lemma_range_reads(start: usize, end: usize, pad: Seq<char>)
    requires
        1 <= start <= end,
        is_pad(pad),
    ensures
        ({
            let s = dec(start as nat) + pad + "-"@ + pad + dec(end as nat);
            &&& range_of(s) == Some((start, end))
            &&& s.len() > 0
            &&& has_bare_ends(s)
            &&& forall|i: int|
                0 <= i < s.len() ==> (#[trigger] s[i]) != ',' && s[i] != '\n' && s[i] != '\r'
        }),
{
    reveal_strlit("-");
    lemma_pad(pad);
    lemma_dec_is_digits(start as nat);
    lemma_dec_is_digits(end as nat);
    lemma_number_reads(start, false);
    lemma_number_reads(end, false);
    let (a, b) = (dec(start as nat), dec(end as nat));
    let s = a + pad + "-"@ + pad + b;
    let k = (a.len() + pad.len()) as int;
    assert(s[k] == '-');
    assert forall|i: int| 0 <= i < k implies s[i] != '-' by {
        if i < a.len() {
            assert(s[i] == a[i]);
        } else {
            assert(s[i] == pad[i - a.len()]);
        }
    }
    lemma_find_char_is(s, '-', k);
    let nothing = Seq::<char>::empty();
    assert(s.take(k) =~= nothing + a + pad);
    assert(s.skip(k + 1) =~= pad + b + nothing);
    lemma_trim_takes(nothing, a, pad);
    lemma_trim_takes(pad, b, nothing);
    assert(s[0] == a[0]);
    assert(s.last() == b.last());
    assert forall|i: int| 0 <= i < s.len() implies (#[trigger] s[i]) != ',' && s[i] != '\n' && s[i]
        != '\r' by {
        if i < a.len() {
            assert(s[i] == a[i]);
        } else if i < k {
            assert(s[i] == pad[i - a.len()]);
        } else if k < i < k + 1 + pad.len() {
            assert(s[i] == pad[i - k - 1]);
        } else if i > k {
            assert(s[i] == b[i - k - 1 - pad.len()]);
        }
    }
}

/// What is read of a line behind the word that an instruction starts with.
pub proof fn lemma_word_reads(word: Seq<char>, pad: Seq<char>, rest: Seq<char>)
    requires
        is_pad(pad),
        word.len() > 0,
        !is_space(word[0]),
        rest.len() > 0,
        has_bare_ends(rest),
    ensures
        ({
            let core = word + pad + rest;
            &&& trim(pad + core + pad) == core
            &&& starts(core, word)
            &&& trim(core.skip(word.len() as int)) == rest
        }),
{
    let core = word + pad + rest;
    assert(core[0] == word[0]);
    assert(core.last() == rest.last());
    lemma_trim_takes(pad, core, pad);
    assert(core.take(word.len() as int) =~= word);
    assert(core.skip(word.len() as int) =~= pad + rest + Seq::<char>::empty());
    lemma_trim_takes(pad, rest, seq![]);
}

proof fn lemma_words_differ()
    ensures
        "***DELETE***"@.len() == 12,
        "***MOVE***"@.len() == 10,
        "***APPEND_HEAD***"@.len() == 17,
        "***APPEND_END***"@.len() == 16,
        "***DELETE***"@[3] == 'D',
        "***MOVE***"@[3] == 'M',
        "***APPEND_HEAD***"@[3] == 'A',
        "***APPEND_END***"@[3] == 'A',
        "***APPEND_HEAD***"@[10] == 'H',
        "***APPEND_END***"@[10] == 'E',
        "***DELETE***"@[0] == '*',
        "***MOVE***"@[0] == '*',
        "***APPEND_HEAD***"@[0] == '*',
        "***APPEND_END***"@[0] == '*',
        "***APPEND_END***"@[15] == '*',
{
    reveal_strlit("***DELETE***");
    reveal_strlit("***MOVE***");
    reveal_strlit("***APPEND_HEAD***");
    reveal_strlit("***APPEND_END***");
}

pub proof fn lemma_starts_at(s: Seq<char>, p: Seq<char>, i: int)
    requires
        starts(s, p),
        0 <= i < p.len(),
    ensures
        i < s.len(),
        s[i] == p[i],
{
    assert(s.take(p.len() as int)[i] == s[i]);
}

proof fn lemma_delete_reads(start: usize, end: usize, pad: Seq<char>)
    requires
        1 <= start <= end,
        is_pad(pad),
    ensures
        ({
            let op = LinePatchOpView::Delete { start, end };
            let line = written(op, pad)[0];
            let t = trim(line);
            &&& t.len() > 0
            &&& starts(t, "***DELETE***"@)
            &&& delete_op(line, t.skip("***DELETE***"@.len() as int)) == Ok::<
                LinePatchOpView,
                Seq<char>,
            >(op)
        }),
{
    lemma_words_differ();
    lemma_range_reads(start, end, pad);
    lemma_word_reads(
        "***DELETE***"@,
        pad,
        dec(start as nat) + pad + "-"@ + pad + dec(end as nat),
    );
}

proof fn lemma_move_reads(start: usize, end: usize, after: LineInsertTarget, pad: Seq<char>)
    requires
        1 <= start <= end,
        is_target(after),
        is_pad(pad),
    ensures
        ({
            let op = LinePatchOpView::Move { start, end, after };
            let line = written(op, pad)[0];
            let t = trim(line);
            &&& t.len() > 0
            &&& starts(t, "***MOVE***"@)
            &&& !starts(t, "***DELETE***"@)
            &&& move_op(line, t.skip("***MOVE***"@.len() as int)) == Ok::<
                LinePatchOpView,
                Seq<char>,
            >(op)
        }),
{
    reveal_strlit(",");
    lemma_words_differ();
    lemma_pad(pad);
    lemma_range_reads(start, end, pad);
    lemma_target_reads(after);
    let range = dec(start as nat) + pad + "-"@ + pad + dec(end as nat);
    let target = written_target(after);
    let rest = range + pad + ","@ + pad + target;
    assert(rest[0] == range[0]);
    assert(rest.last() == target.last());
    let k = (range.len() + pad.len()) as int;
    assert(rest[k] == ',');
    assert forall|i: int| 0 <= i < k implies rest[i] != ',' by {
        if i < range.len() {
            assert(rest[i] == range[i]);
        } else {
            assert(rest[i] == pad[i - range.len()]);
        }
    }
    lemma_find_char_is(rest, ',', k);
    let nothing = Seq::<char>::empty();
    assert(rest.take(k) =~= nothing + range + pad);
    assert(rest.skip(k + 1) =~= pad + target + nothing);
    lemma_trim_takes(nothing, range, pad);
    lemma_trim_takes(pad, target, nothing);
    lemma_word_reads("***MOVE***"@, pad, rest);
    let t = "***MOVE***"@ + pad + rest;
    if starts(t, "***DELETE***"@) {
        lemma_starts_at(t, "***DELETE***"@, 3);
        assert(t[3] == "***MOVE***"@[3]);
    }
    assert(nothing + rest + nothing =~= rest);
    lemma_trim_takes(nothing, rest, nothing);
}

proof fn lemma_block_end_is(rest: Seq<Seq<char>>, k: int)
    requires
        0 <= k < rest.len(),
        trim(rest[k]) == "***APPEND_END***"@,
        forall|i: int| 0 <= i < k ==> trim(#[trigger] rest[i]) != "***APPEND_END***"@,
    ensures
        block_end(rest) == k,
    decreases rest.len(),
{
    if k > 0 {
        let less = rest.drop_first();
        assert forall|i: int| 0 <= i < k - 1 implies trim(#[trigger] less[i])
            != "***APPEND_END***"@ by {
            assert(less[i] == rest[i + 1]);
        }
        assert(trim(rest[0]) != "***APPEND_END***"@);
        lemma_block_end_is(less, k - 1);
    }
}

proof fn lemma_append_reads(
    after: LineInsertTarget,
    lines: Seq<Seq<char>>,
    pad: Seq<char>,
    behind: Seq<Seq<char>>,
)
    requires
        is_writable(LinePatchOpView::Append { after, lines }),
        is_pad(pad),
    ensures
        ({
            let op = LinePatchOpView::Append { after, lines };
            let all = written(op, pad) + behind;
            let t = trim(all[0]);
            let rest = all.drop_first();
            &&& t.len() > 0
            &&& starts(t, "***APPEND_HEAD***"@)
            &&& !starts(t, "***DELETE***"@)
            &&& !starts(t, "***MOVE***"@)
            &&& target_of(trim(t.skip("***APPEND_HEAD***"@.len() as int))) == Some(after)
            &&& block_end(rest) == lines.len()
            &&& lines.len() < rest.len()
            &&& rest.take(lines.len() as int) == lines
            &&& rest.skip(lines.len() as int + 1) == behind
        }),
{
    lemma_words_differ();
    lemma_pad(pad);
    lemma_target_reads(after);
    let op = LinePatchOpView::Append { after, lines };
    let all = written(op, pad) + behind;
    let rest = all.drop_first();
    let n = lines.len() as int;
    lemma_word_reads("***APPEND_HEAD***"@, pad, written_target(after));
    let t = "***APPEND_HEAD***"@ + pad + written_target(after);
    assert(all[0] == pad + t + pad);
    if starts(t, "***DELETE***"@) {
        lemma_starts_at(t, "***DELETE***"@, 3);
    }
    if starts(t, "***MOVE***"@) {
        lemma_starts_at(t, "***MOVE***"@, 3);
    }
    assert(t[3] == "***APPEND_HEAD***"@[3]);
    assert(rest[n] == pad + "***APPEND_END***"@ + pad);
    assert("***APPEND_END***"@.last() == '*');
    lemma_trim_takes(pad, "***APPEND_END***"@, pad);
    assert forall|i: int| 0 <= i < n implies trim(#[trigger] rest[i]) != "***APPEND_END***"@ by {
        assert(rest[i] == lines[i]);
        assert(is_block_line(lines[i]));
    }
    lemma_block_end_is(rest, n);
    assert(rest.take(n) =~= lines);
    assert(rest.skip(n + 1) =~= behind);
}

proof fn lemma_replace_reads(line: usize, text: Seq<char>, pad: Seq<char>)
    requires
        line >= 1,
        is_pad(pad),
    ensures
        ({
            let op = LinePatchOpView::Replace { line, text };
            let whole = written(op, pad)[0];
            let t = trim(whole);
            &&& t.len() > 0
            &&& !starts(t, "***DELETE***"@)
            &&& !starts(t, "***MOVE***"@)
            &&& !starts(t, "***APPEND_HEAD***"@)
            &&& t != "***APPEND_END***"@
            &&& replace_op(whole) == Ok::<LinePatchOpView, Seq<char>>(op)
        }),
{
    reveal_strlit(":");
    lemma_words_differ();
    lemma_pad(pad);
    lemma_dec_is_digits(line as nat);
    lemma_number_reads(line, false);
    let a = dec(line as nat);
    let body = a + pad + ":"@ + text;
    let whole = pad + body;
    assert(body[0] == a[0]);
    lemma_trim_start_takes(pad, body);
    lemma_trim_end_keeps_first(body);
    let t = trim(whole);
    assert(t[0] == a[0]);
    if starts(t, "***DELETE***"@) {
        lemma_starts_at(t, "***DELETE***"@, 0);
    }
    if starts(t, "***MOVE***"@) {
        lemma_starts_at(t, "***MOVE***"@, 0);
    }
    if starts(t, "***APPEND_HEAD***"@) {
        lemma_starts_at(t, "***APPEND_HEAD***"@, 0);
    }
    let k = (pad.len() + a.len() + pad.len()) as int;
    assert(whole[k] == ':');
    assert forall|i: int| 0 <= i < k implies whole[i] != ':' by {
        if i < pad.len() {
            assert(whole[i] == pad[i]);
        } else if i < pad.len() + a.len() {
            assert(whole[i] == a[i - pad.len()]);
        } else {
            assert(whole[i] == pad[i - pad.len() - a.len()]);
        }
    }
    lemma_find_char_is(whole, ':', k);
    assert(whole.take(k) =~= pad + a + pad);
    lemma_trim_takes(pad, a, pad);
    assert(whole.skip(k + 1) =~= text);
}

proof fn lemma_written_reads(
    ops: Seq<LinePatchOpView>,
    pad: Seq<char>,
    earlier: Seq<LinePatchOpView>,
)
    requires
        are_writable(ops),
        is_pad(pad),
    ensures
        read_ops(all_written(ops, pad), earlier) == Ok::<Seq<LinePatchOpView>, Seq<char>>(
            earlier + ops,
        ),
    decreases ops.len(),
{
    if ops.len() == 0 {
        assert(earlier + ops =~= earlier);
    } else {
        let op = ops[0];
        let rest = ops.drop_first();
        let all = all_written(ops, pad);
        let behind = all_written(rest, pad);
        assert(is_writable(op));
        assert forall|i: int| 0 <= i < rest.len() implies is_writable(#[trigger] rest[i]) by {
            assert(rest[i] == ops[i + 1]);
        }
        lemma_written_reads(rest, pad, earlier.push(op));
        assert(earlier.push(op) + rest =~= earlier + ops);
        assert(all == written(op, pad) + behind);
        match op {
            LinePatchOpView::Delete { start, end } => {
                lemma_delete_reads(start, end, pad);
                assert(all[0] == written(op, pad)[0]);
                assert(all.drop_first() =~= behind);
            },
            LinePatchOpView::Move { start, end, after } => {
                lemma_move_reads(start, end, after, pad);
                assert(all[0] == written(op, pad)[0]);
                assert(all.drop_first() =~= behind);
            },
            LinePatchOpView::Append { after, lines } => {
                lemma_append_reads(after, lines, pad, behind);
            },
            LinePatchOpView::Replace { line, text } => {
                lemma_replace_reads(line, text, pad);
                assert(all[0] == written(op, pad)[0]);
                assert(all.drop_first() =~= behind);
            },
        }
    }
}

pub proof fn lemma_padded_is_line(front: Seq<char>, core: Seq<char>, back: Seq<char>)
    requires
        is_pad(front),
        is_pad(back),
        core.len() > 0,
        is_line(core),
    ensures
        is_line(front + core + back),
        front + core =~= front + core + Seq::<char>::empty(),
{
    lemma_pad(front);
    lemma_pad(back);
    let s = front + core + back;
    assert forall|i: int| 0 <= i < s.len() implies s[i] != '\n' by {
        if i < front.len() {
            assert(s[i] == front[i]);
        } else if i < front.len() + core.len() {
            assert(s[i] == core[i - front.len()]);
            assert(core.contains(core[i - front.len()]));
        } else {
            assert(s[i] == back[i - front.len() - core.len()]);
        }
    }
    if back.len() > 0 {
        assert(s.last() == back[back.len() - 1]);
    } else {
        assert(s.last() == core.last());
    }
}

pub proof fn lemma_parts_are_line(a: Seq<char>, b: Seq<char>)
    requires
        !a.contains('\n'),
        is_line(b),
        b.len() > 0,
    ensures
        is_line(a + b),
{
    let s = a + b;
    assert forall|i: int| 0 <= i < s.len() implies s[i] != '\n' by {
        if i < a.len() {
            assert(a.contains(a[i]));
            assert(s[i] == a[i]);
        } else {
            assert(b.contains(b[i - a.len()]));
            assert(s[i] == b[i - a.len()]);
        }
    }
    assert(s.last() == b.last());
}

pub proof fn lemma_plain_is_line(s: Seq<char>)
    requires
        forall|i: int| 0 <= i < s.len() ==> (#[trigger] s[i]) != '\n' && s[i] != '\r',
    ensures
        is_line(s),
{
}

proof fn lemma_word_is_line()
    ensures
        is_line("***DELETE***"@),
        is_line("***MOVE***"@),
        is_line("***APPEND_HEAD***"@),
        is_line("***APPEND_END***"@),
{
    reveal_strlit("***DELETE***");
    reveal_strlit("***MOVE***");
    reveal_strlit("***APPEND_HEAD***");
    reveal_strlit("***APPEND_END***");
}

proof fn lemma_written_are_lines(op: LinePatchOpView, pad: Seq<char>)
    requires
        is_writable(op),
        is_pad(pad),
    ensures
        are_lines(written(op, pad)),
        written(op, pad).len() > 0,
        written(op, pad).last().len() > 0,
        written(op, pad)[0].len() > 0,
        written(op, pad)[0][0] == '*' || is_digit(written(op, pad)[0][0]) || is_space(
            written(op, pad)[0][0],
        ),
{
    reveal_strlit(",");
    reveal_strlit(":");
    lemma_pad(pad);
    lemma_words_differ();
    lemma_word_is_line();
    let nothing = Seq::<char>::empty();
    match op {
        LinePatchOpView::Delete { start, end } => {
            lemma_range_reads(start, end, pad);
            let range = dec(start as nat) + pad + "-"@ + pad + dec(end as nat);
            lemma_plain_is_line(range);
            lemma_padded_is_line(pad, range, nothing);
            lemma_parts_are_line("***DELETE***"@, pad + range);
            let core = "***DELETE***"@ + pad + range;
            assert(core =~= "***DELETE***"@ + (pad + range));
            lemma_padded_is_line(pad, core, pad);
            let line = written(op, pad)[0];
            assert(line == pad + core + pad);
            assert(line[0] == if pad.len() > 0 {
                pad[0]
            } else {
                core[0]
            });
        },
        LinePatchOpView::Move { start, end, after } => {
            lemma_range_reads(start, end, pad);
            lemma_target_reads(after);
            let range = dec(start as nat) + pad + "-"@ + pad + dec(end as nat);
            let target = written_target(after);
            let rest = range + pad + ","@ + pad + target;
            assert forall|i: int| 0 <= i < rest.len() implies (#[trigger] rest[i]) != '\n' && rest[i]
                != '\r' by {
                let k = (range.len() + pad.len()) as int;
                if i < range.len() {
                    assert(rest[i] == range[i]);
                } else if i < k {
                    assert(rest[i] == pad[i - range.len()]);
                } else if i == k {
                    assert(rest[i] == ',');
                } else if i < k + 1 + pad.len() {
                    assert(rest[i] == pad[i - k - 1]);
                } else {
                    assert(rest[i] == target[i - k - 1 - pad.len()]);
                }
            }
            lemma_plain_is_line(rest);
            lemma_padded_is_line(pad, rest, nothing);
            lemma_parts_are_line("***MOVE***"@, pad + rest);
            let core = "***MOVE***"@ + pad + rest;
            assert(core =~= "***MOVE***"@ + (pad + rest));
            lemma_padded_is_line(pad, core, pad);
            let line = written(op, pad)[0];
            assert(line == pad + core + pad);
            assert(line[0] == if pad.len() > 0 {
                pad[0]
            } else {
                core[0]
            });
        },
        LinePatchOpView::Append { after, lines } => {
            lemma_target_reads(after);
            let target = written_target(after);
            lemma_plain_is_line(target);
            lemma_padded_is_line(pad, target, nothing);
            lemma_parts_are_line("***APPEND_HEAD***"@, pad + target);
            let core = "***APPEND_HEAD***"@ + pad + target;
            assert(core =~= "***APPEND_HEAD***"@ + (pad + target));
            lemma_padded_is_line(pad, core, pad);
            lemma_padded_is_line(pad, "***APPEND_END***"@, pad);
            let all = written(op, pad);
            assert(all[0] == pad + core + pad);
            assert(all[0][0] == if pad.len() > 0 {
                pad[0]
            } else {
                core[0]
            });
            assert forall|i: int| 0 <= i < all.len() implies is_line(#[trigger] all[i]) by {
                if 0 < i < all.len() - 1 {
                    assert(all[i] == lines[i - 1]);
                    assert(is_block_line(lines[i - 1]));
                }
            }
        },
        LinePatchOpView::Replace { line, text } => {
            lemma_dec_is_digits(line as nat);
            let a = dec(line as nat);
            lemma_plain_is_line(a);
            let head = a + pad;
            assert forall|i: int| 0 <= i < head.len() implies head[i] != '\n' by {
                if i < a.len() {
                    assert(head[i] == a[i]);
                } else {
                    assert(head[i] == pad[i - a.len()]);
                }
            }
            let tail = ":"@ + text;
            assert forall|i: int| 0 <= i < tail.len() implies tail[i] != '\n' by {
                if i > 0 {
                    assert(tail[i] == text[i - 1]);
                    assert(text.contains(text[i - 1]));
                }
            }
            if text.len() > 0 {
                assert(tail.last() == text.last());
            }
            lemma_parts_are_line(head, tail);
            let core = a + pad + ":"@ + text;
            assert(core =~= head + tail);
            lemma_padded_is_line(pad, core, nothing);
            let whole = written(op, pad)[0];
            assert(whole[0] == if pad.len() > 0 {
                pad[0]
            } else {
                a[0]
            });
        },
    }
}

proof fn lemma_all_written_are_lines(ops: Seq<LinePatchOpView>, pad: Seq<char>)
    requires
        are_writable(ops),
        is_pad(pad),
        ops.len() > 0,
    ensures
        are_lines(all_written(ops, pad)),
        all_written(ops, pad).len() > 0,
        all_written(ops, pad).last().len() > 0,
        all_written(ops, pad)[0] == written(ops[0], pad)[0],
    decreases ops.len(),
{
    let rest = ops.drop_first();
    let first = written(ops[0], pad);
    let all = all_written(ops, pad);
    assert(is_writable(ops[0]));
    lemma_written_are_lines(ops[0], pad);
    if rest.len() > 0 {
        assert forall|i: int| 0 <= i < rest.len() implies is_writable(#[trigger] rest[i]) by {
            assert(rest[i] == ops[i + 1]);
        }
        lemma_all_written_are_lines(rest, pad);
        let behind = all_written(rest, pad);
        assert forall|i: int| 0 <= i < all.len() implies is_line(#[trigger] all[i]) by {
            if i < first.len() {
                assert(all[i] == first[i]);
            } else {
                assert(all[i] == behind[i - first.len()]);
            }
        }
        assert(all.last() == behind.last());
    } else {
        assert(all =~= first);
    }
}

proof fn lemma_one_written(op: LinePatchOpView, pad: Seq<char>)
    ensures
        all_written(seq![op], pad) == written(op, pad),
{
    reveal_with_fuel(all_written, 2);
    let ops = seq![op];
    assert(ops.drop_first() =~= seq![]);
    assert(written(op, pad) + all_written(seq![], pad) =~= written(op, pad));
}

/// Instructions that are written down are read as what was written, one after the
/// other, with white space round their numbers or without: a replacement keeps all that
/// stands behind its colon, and an appended block every line of it.
pub proof fn lemma_instructions_read_back(ops: Seq<LinePatchOpView>, pad: Seq<char>)
    requires
        are_writable(ops),
        is_pad(pad),
        ops.len() > 0,
    ensures
        line_ops(patch_of(ops, pad)) == Ok::<Seq<LinePatchOpView>, Seq<char>>(ops),
{
    let all = all_written(ops, pad);
    lemma_all_written_are_lines(ops, pad);
    lemma_lines_undo_join(all);
    assert forall|i: int| 0 <= i < all.len() implies strip_crs(#[trigger] all[i]) == all[i] by {
        assert(is_line(all[i]));
        lemma_strip_crs_keeps(all[i]);
    }
    assert(patch_lines(patch_of(ops, pad)) =~= all);
    lemma_written_reads(ops, pad, seq![]);
    assert(Seq::<LinePatchOpView>::empty() + ops =~= ops);
}

/// A line with the number of a line, a colon and a text is the instruction to give that
/// line that text, character for character.
pub proof fn lemma_replacement_is_read(n: usize, text: Seq<char>)
    requires
        n >= 1,
        is_line(text),
    ensures
        line_ops(dec(n as nat) + ":"@ + text) == Ok::<Seq<LinePatchOpView>, Seq<char>>(
            seq![LinePatchOpView::Replace { line: n, text }],
        ),
{
    let op = LinePatchOpView::Replace { line: n, text };
    let nothing = Seq::<char>::empty();
    let ops = seq![op];
    lemma_instructions_read_back(ops, nothing);
    lemma_one_written(op, nothing);
    assert(written(op, nothing)[0] =~= dec(n as nat) + ":"@ + text);
}

/// Blank lines between instructions do not count.
pub proof fn lemma_blank_lines_do_not_count(
    blank: Seq<char>,
    rest: Seq<Seq<char>>,
    earlier: Seq<LinePatchOpView>,
)
    requires
        is_all_blank(blank),
    ensures
        read_ops(seq![blank] + rest, earlier) == read_ops(rest, earlier),
{
    let nothing = Seq::<char>::empty();
    lemma_trim_takes(blank, nothing, nothing);
    assert(blank + nothing + nothing =~= blank);
    assert((seq![blank] + rest).drop_first() =~= rest);
}

// ---------------------------------------------------------------------------
// What one instruction does
// ---------------------------------------------------------------------------
/// The lines that an instruction asks for.
pub open spec fn asked_for(op: LinePatchOpView, rows: Seq<Seq<char>>) -> Seq<Seq<char>> {
    match op {
        LinePatchOpView::Delete { start, end } => rows.take(start - 1) + rows.skip(end as int),
        LinePatchOpView::Append { after, lines } => {
            let b = boundary_at(after, rows.len() as int);
            rows.take(b) + lines + rows.skip(b)
        },
        LinePatchOpView::Replace { line, text } => rows.update(line - 1, text),
        LinePatchOpView::Move { start, end, after } => {
            let b = boundary_at(after, rows.len() as int);
            let block = rows.subrange(start - 1, end as int);
            if b < start {
                rows.take(b) + block + rows.subrange(b, start - 1) + rows.skip(end as int)
            } else {
                rows.take(start - 1) + rows.subrange(end as int, b) + block + rows.skip(b)
            }
        },
    }
}

/// How many lines stand before a target: none before the start, all before the end.
pub open spec fn boundary_at(target: LineInsertTarget, total: int) -> int {
    match target {
        LineInsertTarget::Start => 0,
        LineInsertTarget::After(n) => n as int,
        LineInsertTarget::End => total,
    }
}

/// Whether a file of `total` lines has the lines that an instruction names, and a block
/// does not move into itself.
pub open spec fn is_in_range(op: LinePatchOpView, total: int) -> bool {
    match op {
        LinePatchOpView::Delete { start, end } => 1 <= start <= end <= total,
        LinePatchOpView::Append { after, .. } => boundary_at(after, total) <= total,
        LinePatchOpView::Replace { line, .. } => 1 <= line <= total,
        LinePatchOpView::Move { start, end, after } => 1 <= start <= end <= total && (match after {
            LineInsertTarget::After(n) => n <= total && !(start <= n <= end),
            _ => true,
        }),
    }
}

proof fn lemma_one_op(op: LinePatchOpView, rows: Seq<Seq<char>>, i: int)
    ensures
        ({
            let ops = seq![op];
            &&& removal_at(ops, i) == takes_away(op, i)
            &&& removal_at(seq![], i) is None
            &&& replacement_at(seq![], i) is None
            &&& put_behind(ops, rows, ops, i) == puts_behind(op, rows, ops, i)
            &&& replacement_at(ops, i) == match op {
                LinePatchOpView::Replace { line, text } => if line == i {
                    Some(text)
                } else {
                    None
                },
                _ => None,
            }
            &&& first_op_fault(ops, rows.len() as int) == op_fault(seq![], op, rows.len() as int)
        }),
{
    let ops = seq![op];
    assert(ops.drop_last() =~= seq![]);
    assert(ops.last() == op);
    reveal_with_fuel(removal_at, 2);
    reveal_with_fuel(replacement_at, 2);
    reveal_with_fuel(put_behind, 2);
    reveal_with_fuel(first_op_fault, 2);
    assert(put_behind(seq![], rows, ops, i) + puts_behind(op, rows, ops, i) =~= puts_behind(
        op,
        rows,
        ops,
        i,
    ));
}

/// What the first `k` lines become by one instruction.
spec fn done_so_far(op: LinePatchOpView, rows: Seq<Seq<char>>, k: int) -> Seq<Seq<char>> {
    match op {
        LinePatchOpView::Delete { start, end } => if k < start {
            rows.take(k)
        } else if k <= end {
            rows.take(start - 1)
        } else {
            rows.take(start - 1) + rows.subrange(end as int, k)
        },
        LinePatchOpView::Append { after, lines } => {
            let b = boundary_at(after, rows.len() as int);
            if k < b {
                rows.take(k)
            } else {
                rows.take(b) + lines + rows.subrange(b, k)
            }
        },
        LinePatchOpView::Replace { line, text } => rows.update(line - 1, text).take(k),
        LinePatchOpView::Move { start, end, after } => {
            let b = boundary_at(after, rows.len() as int);
            if b < start {
                moved_up(rows, start as int, end as int, b, k)
            } else {
                moved_down(rows, start as int, end as int, b, k)
            }
        },
    }
}

/// The first `k` lines once the lines `s` to `e` stand behind line `b` above them.
spec fn moved_up(rows: Seq<Seq<char>>, s: int, e: int, b: int, k: int) -> Seq<Seq<char>> {
    let block = rows.subrange(s - 1, e);
    if k < b {
        rows.take(k)
    } else if k < s {
        rows.take(b) + block + rows.subrange(b, k)
    } else if k <= e {
        rows.take(b) + block + rows.subrange(b, s - 1)
    } else {
        rows.take(b) + block + rows.subrange(b, s - 1) + rows.subrange(e, k)
    }
}

/// The first `k` lines once the lines `s` to `e` stand behind line `b` below them.
spec fn moved_down(rows: Seq<Seq<char>>, s: int, e: int, b: int, k: int) -> Seq<Seq<char>> {
    let block = rows.subrange(s - 1, e);
    if k < s {
        rows.take(k)
    } else if k < b {
        rows.take(s - 1) + rows.subrange(e, if k < e {
            e
        } else {
            k
        })
    } else {
        rows.take(s - 1) + rows.subrange(e, b) + block + rows.subrange(b, k)
    }
}

spec fn stays_unless(rows: Seq<Seq<char>>, s: int, e: int, k: int) -> Seq<Seq<char>> {
    if s <= k <= e {
        seq![]
    } else {
        seq![rows[k - 1]]
    }
}

spec fn put_where(rows: Seq<Seq<char>>, s: int, e: int, b: int, k: int) -> Seq<Seq<char>> {
    if b == k {
        rows.subrange(s - 1, e)
    } else {
        seq![]
    }
}

#[verifier::spinoff_prover]
proof fn lemma_moved_up_step(rows: Seq<Seq<char>>, s: int, e: int, b: int, k: int)
    requires
        0 <= b < s <= e <= rows.len(),
        0 < k <= rows.len(),
    ensures
        moved_up(rows, s, e, b, k) == moved_up(rows, s, e, b, k - 1) + stays_unless(rows, s, e, k)
            + put_where(rows, s, e, b, k),
{
    let before = moved_up(rows, s, e, b, k - 1);
    let now = before + stays_unless(rows, s, e, k) + put_where(rows, s, e, b, k);
    if k < b {
        assert(now =~= moved_up(rows, s, e, b, k));
    } else if k == b {
        assert(now =~= moved_up(rows, s, e, b, k));
    } else if k < s {
        assert(now =~= moved_up(rows, s, e, b, k));
    } else if k <= e {
        assert(now =~= moved_up(rows, s, e, b, k));
    } else {
        assert(now =~= moved_up(rows, s, e, b, k));
    }
}

#[verifier::spinoff_prover]
proof fn lemma_moved_down_step(rows: Seq<Seq<char>>, s: int, e: int, b: int, k: int)
    requires
        1 <= s <= e <= b <= rows.len(),
        0 < k <= rows.len(),
    ensures
        moved_down(rows, s, e, b, k) == moved_down(rows, s, e, b, k - 1) + stays_unless(
            rows,
            s,
            e,
            k,
        ) + put_where(rows, s, e, b, k),
{
    let before = moved_down(rows, s, e, b, k - 1);
    let now = before + stays_unless(rows, s, e, k) + put_where(rows, s, e, b, k);
    if k < s {
        assert(now =~= moved_down(rows, s, e, b, k));
    } else if k <= e && k < b {
        assert(now =~= moved_down(rows, s, e, b, k));
    } else if k < b {
        assert(now =~= moved_down(rows, s, e, b, k));
    } else if k == b {
        assert(rows.subrange(b, b) =~= seq![]);
        if b == e {
            assert(rows.subrange(e, e) =~= seq![]);
        }
        assert(now =~= moved_down(rows, s, e, b, k));
    } else {
        assert(now =~= moved_down(rows, s, e, b, k));
    }
}

proof fn lemma_done_by_delete(op: LinePatchOpView, rows: Seq<Seq<char>>, k: int)
    requires
        op is Delete,
        is_in_range(op, rows.len() as int),
        0 <= k <= rows.len(),
    ensures
        rewritten(rows, seq![op], k) == done_so_far(op, rows, k),
    decreases k,
{
    lemma_one_op(op, rows, k);
    if k > 0 {
        lemma_done_by_delete(op, rows, k - 1);
    }
    assert(rewritten(rows, seq![op], k) =~= done_so_far(op, rows, k));
}

proof fn lemma_done_by_append(op: LinePatchOpView, rows: Seq<Seq<char>>, k: int)
    requires
        op is Append,
        is_in_range(op, rows.len() as int),
        0 <= k <= rows.len(),
    ensures
        rewritten(rows, seq![op], k) == done_so_far(op, rows, k),
    decreases k,
{
    lemma_one_op(op, rows, k);
    if k > 0 {
        lemma_done_by_append(op, rows, k - 1);
    }
    assert(rewritten(rows, seq![op], k) =~= done_so_far(op, rows, k));
}

proof fn lemma_done_by_replace(op: LinePatchOpView, rows: Seq<Seq<char>>, k: int)
    requires
        op is Replace,
        is_in_range(op, rows.len() as int),
        0 <= k <= rows.len(),
    ensures
        rewritten(rows, seq![op], k) == done_so_far(op, rows, k),
    decreases k,
{
    lemma_one_op(op, rows, k);
    if k > 0 {
        lemma_done_by_replace(op, rows, k - 1);
    }
    assert(rewritten(rows, seq![op], k) =~= done_so_far(op, rows, k));
}

proof fn lemma_moved_step(op: LinePatchOpView, rows: Seq<Seq<char>>, k: int)
    requires
        op is Move,
        is_in_range(op, rows.len() as int),
        0 <= k <= rows.len(),
    ensures
        ({
            let ops = seq![op];
            let (start, end) = (op->Move_start, op->Move_end);
            let b = boundary_at(op->Move_after, rows.len() as int);
            &&& put_behind(ops, rows, ops, k) == if b == k {
                rows.subrange(start - 1, end as int)
            } else {
                seq![]
            }
            &&& k > 0 ==> stays(rows, ops, k) == if start <= k <= end {
                Seq::<Seq<char>>::empty()
            } else {
                seq![rows[k - 1]]
            }
        }),
{
    let ops = seq![op];
    let (start, end) = (op->Move_start, op->Move_end);
    lemma_one_op(op, rows, k);
    let block = Seq::new((end - start + 1) as nat, |j: int| new_text(rows, ops, start + j));
    assert forall|j: int| 0 <= j < block.len() implies block[j] == #[trigger] rows.subrange(
        start - 1,
        end as int,
    )[j] by {
        lemma_one_op(op, rows, start + j);
    }
    assert(block =~= rows.subrange(start - 1, end as int));
}

proof fn lemma_done_by_move(op: LinePatchOpView, rows: Seq<Seq<char>>, k: int)
    requires
        op is Move,
        is_in_range(op, rows.len() as int),
        0 <= k <= rows.len(),
    ensures
        rewritten(rows, seq![op], k) == done_so_far(op, rows, k),
    decreases k,
{
    let ops = seq![op];
    let (start, end) = (op->Move_start as int, op->Move_end as int);
    let b = boundary_at(op->Move_after, rows.len() as int);
    lemma_moved_step(op, rows, k);
    if k == 0 {
        assert(rewritten(rows, ops, k) =~= done_so_far(op, rows, k));
    } else {
        lemma_done_by_move(op, rows, k - 1);
        if b < start {
            lemma_moved_up_step(rows, start, end, b, k);
        } else {
            lemma_moved_down_step(rows, start, end, b, k);
        }
    }
}

proof fn lemma_done_so_far(op: LinePatchOpView, rows: Seq<Seq<char>>, k: int)
    requires
        is_in_range(op, rows.len() as int),
        0 <= k <= rows.len(),
    ensures
        rewritten(rows, seq![op], k) == done_so_far(op, rows, k),
{
    match op {
        LinePatchOpView::Delete { .. } => lemma_done_by_delete(op, rows, k),
        LinePatchOpView::Append { .. } => lemma_done_by_append(op, rows, k),
        LinePatchOpView::Replace { .. } => lemma_done_by_replace(op, rows, k),
        LinePatchOpView::Move { .. } => lemma_done_by_move(op, rows, k),
    }
}

proof fn lemma_one_op_fits(op: LinePatchOpView, rows: Seq<Seq<char>>)
    requires
        is_in_range(op, rows.len() as int),
    ensures
        patch_fault(seq![op], rows.len() as int) is None,
{
    let n = rows.len() as int;
    lemma_one_op(op, rows, 1);
    lemma_nothing_taken(1, n);
    match op {
        LinePatchOpView::Delete { start, end } => {
            lemma_nothing_taken(start as int, end as int);
        },
        LinePatchOpView::Move { start, end, .. } => {
            lemma_nothing_taken(start as int, end as int);
        },
        LinePatchOpView::Replace { line, .. } => {
            lemma_one_op(op, rows, line as int);
        },
        _ => {},
    }
    lemma_no_clash_alone(op, rows, 1, n);
}

proof fn lemma_nothing_taken(start: int, end: int)
    ensures
        first_taken(seq![], start, end) is None,
    decreases end - start + 1,
{
    if start <= end {
        lemma_nothing_taken(start + 1, end);
    }
}

proof fn lemma_no_clash_alone(op: LinePatchOpView, rows: Seq<Seq<char>>, i: int, n: int)
    ensures
        replaced_and_deleted(seq![op], i, n) is None,
    decreases n - i + 1,
{
    if i <= n {
        lemma_one_op(op, rows, i);
        lemma_no_clash_alone(op, rows, i + 1, n);
    }
}

/// What an instruction does to the lines of a file: a deletion leaves out its range, an
/// append puts its block behind a line, a replacement gives one line a new text, and a
/// move puts a range behind a line that lies outside it. All else stays as it is.
pub proof fn lemma_instruction_does_what_it_asks(op: LinePatchOpView, rows: Seq<Seq<char>>)
    requires
        is_in_range(op, rows.len() as int),
    ensures
        patch_fault(seq![op], rows.len() as int) is None,
        rewritten(rows, seq![op], rows.len() as int) == asked_for(op, rows),
{
    lemma_one_op_fits(op, rows);
    lemma_done_so_far(op, rows, rows.len() as int);
    assert(done_so_far(op, rows, rows.len() as int) =~= asked_for(op, rows));
}

/// Whether a block has no line in it that opens an envelope.
pub open spec fn is_unwrapped(op: LinePatchOpView) -> bool {
    op matches LinePatchOpView::Append { lines, .. } ==> forall|i: int|
        0 <= i < lines.len() ==> trim(#[trigger] lines[i]) != "*** Begin Patch"@
}

proof fn lemma_not_another_form(op: LinePatchOpView, pad: Seq<char>)
    requires
        is_writable(op),
        is_unwrapped(op),
        is_pad(pad),
    ensures
        !has_envelope(patch_of(seq![op], pad)),
        !is_unified(patch_of(seq![op], pad)),
{
    let ops = seq![op];
    let all = all_written(ops, pad);
    let patch = patch_of(ops, pad);
    lemma_words_differ();
    reveal_strlit("*** Begin Patch");
    reveal_strlit("@@");
    reveal_strlit("---");
    reveal_strlit("diff --git ");
    lemma_all_written_are_lines(ops, pad);
    lemma_written_are_lines(op, pad);
    lemma_lines_undo_join(all);
    lemma_one_written(op, pad);
    if all.len() > 1 {
        lemma_join_from_front(all, "\n"@);
    }
    assert(patch[0] == all[0][0]);
    if starts(patch, "@@"@) {
        lemma_starts_at(patch, "@@"@, 0);
    }
    if starts(patch, "---"@) {
        lemma_starts_at(patch, "---"@, 0);
    }
    if starts(patch, "diff --git "@) {
        lemma_starts_at(patch, "diff --git "@, 0);
    }
    assert forall|i: int| 0 <= i < all.len() implies trim(#[trigger] all[i])
        != "*** Begin Patch"@ by {
        let t = trim(all[i]);
        match op {
            LinePatchOpView::Delete { start, end } => {
                lemma_delete_reads(start, end, pad);
                lemma_starts_at(t, "***DELETE***"@, 3);
            },
            LinePatchOpView::Move { start, end, after } => {
                lemma_move_reads(start, end, after, pad);
                lemma_starts_at(t, "***MOVE***"@, 3);
            },
            LinePatchOpView::Append { after, lines } => {
                lemma_append_reads(after, lines, pad, seq![]);
                let same = written(op, pad) + Seq::<Seq<char>>::empty();
                assert(same =~= all);
                if i == 0 {
                    lemma_starts_at(t, "***APPEND_HEAD***"@, 3);
                } else if i < all.len() - 1 {
                    assert(all[i] == lines[i - 1]);
                } else {
                    lemma_trim_takes(pad, "***APPEND_END***"@, pad);
                }
            },
            LinePatchOpView::Replace { line, text } => {
                lemma_dec_is_digits(line as nat);
                let body = dec(line as nat) + pad + ":"@ + text;
                assert(body[0] == dec(line as nat)[0]);
                lemma_trim_start_takes(pad, body);
                lemma_trim_end_keeps_first(body);
                assert(t[0] == body[0]);
            },
        }
    }
}

/// An instruction that is written down and carried out on a file leaves a file with the
/// lines that the instruction asks for, a line end behind each.
pub proof fn lemma_patched_file_has_asked_lines(
    op: LinePatchOpView,
    pad: Seq<char>,
    rows: Seq<Seq<char>>,
    closed: bool,
)
    requires
        is_writable(op),
        is_unwrapped(op),
        is_pad(pad),
        is_in_range(op, rows.len() as int),
        rows.len() > 0,
        have_no_line_end(rows),
        closed || rows.last().len() > 0,
    ensures
        text_patched(lines_text(rows, closed), patch_of(seq![op], pad)) == Ok::<
            Seq<char>,
            Seq<char>,
        >(lines_text(asked_for(op, rows), closed || asked_for(op, rows).len() > 0)),
{
    reveal_strlit("\n");
    let ops = seq![op];
    let text = lines_text(rows, closed);
    lemma_instructions_read_back(ops, pad);
    lemma_file_lines(rows, closed);
    lemma_instruction_does_what_it_asks(op, rows);
    if closed {
        assert(text.last() == '\n');
    } else {
        assert(text =~= join(rows, "\n"@));
        if rows.len() > 1 {
            assert(text.last() == rows.last().last());
        }
        let last = rows[rows.len() - 1];
        assert(!last.contains('\n'));
        assert(last.contains(last.last()));
    }
    assert(has_final_newline(text) == closed);
    lemma_not_another_form(op, pad);
}

// ---------------------------------------------------------------------------
// What several instructions do
// ---------------------------------------------------------------------------
/// Whether an instruction takes a line from its place.
pub open spec fn takes_line(op: LinePatchOpView, line: int) -> bool {
    match op {
        LinePatchOpView::Delete { start, end } => start <= line <= end,
        LinePatchOpView::Move { start, end, .. } => start <= line <= end,
        _ => false,
    }
}

/// Whether an instruction gives a line a new text.
pub open spec fn gives_text(op: LinePatchOpView, line: int) -> bool {
    op matches LinePatchOpView::Replace { line: n, .. } && n == line
}

/// Whether no two instructions take the same line, none gives a line a text that another
/// gives one too, and none gives a text to a line that is deleted.
pub open spec fn do_not_clash(ops: Seq<LinePatchOpView>) -> bool {
    &&& forall|i: int, j: int, l: int|
        #![trigger takes_line(ops[i], l), takes_line(ops[j], l)]
        0 <= i < j < ops.len() ==> !(takes_line(ops[i], l) && takes_line(ops[j], l))
    &&& forall|i: int, j: int, l: int|
        #![trigger gives_text(ops[i], l), gives_text(ops[j], l)]
        0 <= i < j < ops.len() ==> !(gives_text(ops[i], l) && gives_text(ops[j], l))
    &&& forall|i: int, j: int, l: int|
        #![trigger takes_line(ops[i], l), gives_text(ops[j], l)]
        0 <= i < ops.len() && 0 <= j < ops.len() && ops[i] is Delete ==> !(takes_line(ops[i], l)
            && gives_text(ops[j], l))
}

pub open spec fn are_in_range(ops: Seq<LinePatchOpView>, total: int) -> bool {
    forall|i: int| 0 <= i < ops.len() ==> is_in_range(#[trigger] ops[i], total)
}

proof fn lemma_who_takes(ops: Seq<LinePatchOpView>, l: int) -> (k: int)
    ensures
        removal_at(ops, l) is Some ==> 0 <= k < ops.len() && takes_line(ops[k], l) && removal_at(
            ops,
            l,
        ) == takes_away(ops[k], l),
        forall|i: int| 0 <= i < ops.len() && #[trigger] takes_line(ops[i], l) ==> removal_at(ops, l) is Some,
    decreases ops.len(),
{
    if ops.len() == 0 {
        0
    } else {
        let most = ops.drop_last();
        let k = lemma_who_takes(most, l);
        assert(ops.last() == ops[ops.len() - 1]);
        assert forall|i: int| 0 <= i < ops.len() && #[trigger] takes_line(ops[i], l) implies removal_at(
            ops,
            l,
        ) is Some by {
            if i < most.len() {
                assert(most[i] == ops[i]);
                assert(takes_line(most[i], l));
            }
        }
        if takes_line(ops.last(), l) {
            ops.len() - 1
        } else {
            k
        }
    }
}

proof fn lemma_who_gives(ops: Seq<LinePatchOpView>, l: int) -> (k: int)
    ensures
        replacement_at(ops, l) is Some ==> 0 <= k < ops.len() && gives_text(ops[k], l)
            && replacement_at(ops, l) == Some(ops[k]->Replace_text),
        forall|i: int| 0 <= i < ops.len() && #[trigger] gives_text(ops[i], l) ==> replacement_at(ops, l) is Some,
    decreases ops.len(),
{
    if ops.len() == 0 {
        0
    } else {
        let most = ops.drop_last();
        let k = lemma_who_gives(most, l);
        assert(ops.last() == ops[ops.len() - 1]);
        assert forall|i: int| 0 <= i < ops.len() && #[trigger] gives_text(ops[i], l) implies replacement_at(
            ops,
            l,
        ) is Some by {
            if i < most.len() {
                assert(most[i] == ops[i]);
                assert(gives_text(most[i], l));
            }
        }
        if gives_text(ops.last(), l) {
            ops.len() - 1
        } else {
            k
        }
    }
}

proof fn lemma_none_taken(ops: Seq<LinePatchOpView>, s: int, e: int)
    ensures
        first_taken(ops, s, e) is None <==> forall|l: int|
            s <= l <= e ==> #[trigger] removal_at(ops, l) is None,
    decreases e - s + 1,
{
    if s <= e {
        lemma_none_taken(ops, s + 1, e);
        assert(removal_at(ops, s) is None || removal_at(ops, s) is Some);
    }
}

proof fn lemma_none_replaced_and_deleted(ops: Seq<LinePatchOpView>, i: int, total: int)
    ensures
        replaced_and_deleted(ops, i, total) is None <==> forall|l: int|
            i <= l <= total ==> !(replacement_at(ops, l) is Some && #[trigger] removal_at(ops, l)
                == Some(LineRemoval::Delete)),
    decreases total - i + 1,
{
    if i <= total {
        lemma_none_replaced_and_deleted(ops, i + 1, total);
        assert(removal_at(ops, i) is None || removal_at(ops, i) is Some);
    }
}

/// Whether the instructions take and give no line twice.
spec fn are_apart(ops: Seq<LinePatchOpView>) -> bool {
    &&& forall|i: int, j: int, l: int|
        #![trigger takes_line(ops[i], l), takes_line(ops[j], l)]
        0 <= i < j < ops.len() ==> !(takes_line(ops[i], l) && takes_line(ops[j], l))
    &&& forall|i: int, j: int, l: int|
        #![trigger gives_text(ops[i], l), gives_text(ops[j], l)]
        0 <= i < j < ops.len() ==> !(gives_text(ops[i], l) && gives_text(ops[j], l))
}

/// Whether an instruction touches nothing that earlier ones took or gave.
spec fn leaves_alone(earlier: Seq<LinePatchOpView>, op: LinePatchOpView) -> bool {
    &&& forall|l: int| takes_line(op, l) ==> #[trigger] removal_at(earlier, l) is None
    &&& forall|l: int| gives_text(op, l) ==> #[trigger] replacement_at(earlier, l) is None
}

proof fn lemma_follows(earlier: Seq<LinePatchOpView>, op: LinePatchOpView, total: int)
    requires
        total >= 0,
    ensures
        op_fault(earlier, op, total) is None <==> is_in_range(op, total) && leaves_alone(
            earlier,
            op,
        ),
{
    match op {
        LinePatchOpView::Delete { start, end } => {
            let (s, e) = (start as int, end as int);
            lemma_none_taken(earlier, s, e);
            assert(forall|l: int| takes_line(op, l) <==> s <= l <= e);
            assert(forall|l: int| !gives_text(op, l));
            if leaves_alone(earlier, op) {
                assert forall|l: int| s <= l <= e implies #[trigger] removal_at(earlier, l) is None by {
                    assert(takes_line(op, l));
                }
            }
        },
        LinePatchOpView::Move { start, end, .. } => {
            let (s, e) = (start as int, end as int);
            lemma_none_taken(earlier, s, e);
            assert(forall|l: int| takes_line(op, l) <==> s <= l <= e);
            assert(forall|l: int| !gives_text(op, l));
            if leaves_alone(earlier, op) {
                assert forall|l: int| s <= l <= e implies #[trigger] removal_at(earlier, l) is None by {
                    assert(takes_line(op, l));
                }
            }
        },
        LinePatchOpView::Append { .. } => {},
        LinePatchOpView::Replace { line, .. } => {
            assert(gives_text(op, line as int));
        },
    }
}

proof fn lemma_accepted_one_by_one(ops: Seq<LinePatchOpView>, total: int)
    requires
        total >= 0,
    ensures
        first_op_fault(ops, total) is None <==> are_in_range(ops, total) && are_apart(ops),
    decreases ops.len(),
{
    if ops.len() > 0 {
        let most = ops.drop_last();
        let op = ops.last();
        let n = ops.len() - 1;
        lemma_accepted_one_by_one(most, total);
        lemma_follows(most, op, total);
        assert(ops[n] == op);
        assert forall|i: int| 0 <= i < n implies #[trigger] most[i] == ops[i] by {}
        if first_op_fault(ops, total) is None {
            assert forall|i: int| 0 <= i < ops.len() implies is_in_range(#[trigger] ops[i], total) by {
                if i < n {
                    assert(is_in_range(most[i], total));
                }
            }
            assert forall|i: int, j: int, l: int|
                #![trigger takes_line(ops[i], l), takes_line(ops[j], l)]
                0 <= i < j < ops.len() implies !(takes_line(ops[i], l) && takes_line(ops[j], l)) by {
                lemma_who_takes(most, l);
                if j < n {
                    assert(takes_line(most[i], l) == takes_line(ops[i], l));
                    assert(takes_line(most[j], l) == takes_line(ops[j], l));
                } else {
                    assert(takes_line(most[i], l) == takes_line(ops[i], l));
                }
            }
            assert forall|i: int, j: int, l: int|
                #![trigger gives_text(ops[i], l), gives_text(ops[j], l)]
                0 <= i < j < ops.len() implies !(gives_text(ops[i], l) && gives_text(ops[j], l)) by {
                lemma_who_gives(most, l);
                if j < n {
                    assert(gives_text(most[i], l) == gives_text(ops[i], l));
                    assert(gives_text(most[j], l) == gives_text(ops[j], l));
                } else {
                    assert(gives_text(most[i], l) == gives_text(ops[i], l));
                }
            }
        }
        if are_in_range(ops, total) && are_apart(ops) {
            assert forall|i: int| 0 <= i < most.len() implies is_in_range(#[trigger] most[i], total) by {
                assert(is_in_range(ops[i], total));
            }
            assert forall|i: int, j: int, l: int|
                #![trigger takes_line(most[i], l), takes_line(most[j], l)]
                0 <= i < j < most.len() implies !(takes_line(most[i], l) && takes_line(most[j], l)) by {
                assert(takes_line(ops[i], l) == takes_line(most[i], l));
                assert(takes_line(ops[j], l) == takes_line(most[j], l));
            }
            assert forall|i: int, j: int, l: int|
                #![trigger gives_text(most[i], l), gives_text(most[j], l)]
                0 <= i < j < most.len() implies !(gives_text(most[i], l) && gives_text(most[j], l)) by {
                assert(gives_text(ops[i], l) == gives_text(most[i], l));
                assert(gives_text(ops[j], l) == gives_text(most[j], l));
            }
            assert forall|l: int| takes_line(op, l) implies #[trigger] removal_at(most, l) is None by {
                let k = lemma_who_takes(most, l);
                if removal_at(most, l) is Some {
                    assert(takes_line(ops[k], l));
                    assert(takes_line(ops[n], l));
                }
            }
            assert forall|l: int| gives_text(op, l) implies #[trigger] replacement_at(most, l) is None by {
                let k = lemma_who_gives(most, l);
                if replacement_at(most, l) is Some {
                    assert(gives_text(ops[k], l));
                    assert(gives_text(ops[n], l));
                }
            }
            assert(is_in_range(ops[n], total));
        }
    }
}

/// A patch is accepted if and only if every instruction names lines that the file has
/// and the instructions do not clash.
pub proof fn lemma_accepted_unless_clash(ops: Seq<LinePatchOpView>, total: int)
    requires
        total >= 0,
    ensures
        patch_fault(ops, total) is None <==> are_in_range(ops, total) && do_not_clash(ops),
{
    lemma_accepted_one_by_one(ops, total);
    lemma_none_replaced_and_deleted(ops, 1, total);
    if patch_fault(ops, total) is None {
        assert forall|i: int, j: int, l: int|
            #![trigger takes_line(ops[i], l), gives_text(ops[j], l)]
            0 <= i < ops.len() && 0 <= j < ops.len() && ops[i] is Delete implies !(takes_line(
            ops[i],
            l,
        ) && gives_text(ops[j], l)) by {
            if takes_line(ops[i], l) && gives_text(ops[j], l) {
                let k = lemma_who_takes(ops, l);
                lemma_who_gives(ops, l);
                assert(is_in_range(ops[j], total));
                if k < i {
                    assert(takes_line(ops[k], l) && takes_line(ops[i], l));
                } else if i < k {
                    assert(takes_line(ops[i], l) && takes_line(ops[k], l));
                }
                assert(removal_at(ops, l) == Some(LineRemoval::Delete));
            }
        }
    }
    if are_in_range(ops, total) && do_not_clash(ops) {
        assert forall|l: int| 1 <= l <= total implies !(replacement_at(ops, l) is Some
            && #[trigger] removal_at(ops, l) == Some(LineRemoval::Delete)) by {
            let k = lemma_who_takes(ops, l);
            let g = lemma_who_gives(ops, l);
            if replacement_at(ops, l) is Some && removal_at(ops, l) == Some(LineRemoval::Delete) {
                assert(takes_line(ops[k], l) && gives_text(ops[g], l));
            }
        }
    }
}

proof fn lemma_put_behind_agrees(
    first: Seq<LinePatchOpView>,
    rows: Seq<Seq<char>>,
    ops: Seq<LinePatchOpView>,
    other_rows: Seq<Seq<char>>,
    other: Seq<LinePatchOpView>,
    b: int,
)
    requires
        rows.len() == other_rows.len(),
        forall|i: int|
            1 <= i <= rows.len() ==> #[trigger] new_text(rows, ops, i) == new_text(
                other_rows,
                other,
                i,
            ),
        are_in_range(first, rows.len() as int),
    ensures
        put_behind(first, rows, ops, b) == put_behind(first, other_rows, other, b),
    decreases first.len(),
{
    if first.len() > 0 {
        let most = first.drop_last();
        assert forall|i: int| 0 <= i < most.len() implies is_in_range(
            #[trigger] most[i],
            rows.len() as int,
        ) by {
            assert(most[i] == first[i]);
        }
        lemma_put_behind_agrees(most, rows, ops, other_rows, other, b);
        assert(is_in_range(first[first.len() - 1], rows.len() as int));
        assert(puts_behind(first.last(), rows, ops, b) =~= puts_behind(
            first.last(),
            other_rows,
            other,
            b,
        ));
    }
}

/// To give a line a new text beside other instructions is to give it that text first:
/// wherever the others take the line, the new text goes with it.
pub proof fn lemma_replacement_may_come_first(
    rows: Seq<Seq<char>>,
    ops: Seq<LinePatchOpView>,
    n: usize,
    text: Seq<char>,
    k: int,
)
    requires
        are_in_range(ops, rows.len() as int),
        1 <= n <= rows.len(),
        0 <= k <= rows.len(),
        forall|i: int| 0 <= i < ops.len() ==> !gives_text(#[trigger] ops[i], n as int),
    ensures
        rewritten(rows, ops.push(LinePatchOpView::Replace { line: n, text }), k) == rewritten(
            rows.update(n - 1, text),
            ops,
            k,
        ),
    decreases k,
{
    let op = LinePatchOpView::Replace { line: n, text };
    let all = ops.push(op);
    let changed = rows.update(n - 1, text);
    let g = lemma_who_gives(ops, n as int);
    assert(all.drop_last() =~= ops);
    assert(all.last() == op);
    assert forall|i: int| 1 <= i <= rows.len() implies #[trigger] new_text(rows, all, i)
        == new_text(changed, ops, i) by {
        assert(replacement_at(all, i) == if i == n {
            Some(text)
        } else {
            replacement_at(ops, i)
        });
    }
    lemma_put_behind_agrees(ops, rows, all, changed, ops, k);
    assert(put_behind(all, rows, all, k) =~= put_behind(ops, rows, all, k));
    assert(removal_at(all, k) == removal_at(ops, k));
    if k > 0 {
        lemma_replacement_may_come_first(rows, ops, n, text, k - 1);
    }
}

/// A block that is appended beside other instructions stands behind all that they put
/// behind the same line, and changes nothing else.
pub proof fn lemma_appended_block_has_its_place(
    rows: Seq<Seq<char>>,
    ops: Seq<LinePatchOpView>,
    after: LineInsertTarget,
    block: Seq<Seq<char>>,
    k: int,
)
    requires
        are_in_range(ops, rows.len() as int),
        0 <= boundary_at(after, rows.len() as int) <= rows.len(),
        0 <= k <= rows.len(),
    ensures
        ({
            let b = boundary_at(after, rows.len() as int);
            let before = rewritten(rows, ops, b);
            let whole = rewritten(rows, ops, k);
            rewritten(rows, ops.push(LinePatchOpView::Append { after, lines: block }), k) == if k
                < b {
                whole
            } else {
                before + block + whole.skip(before.len() as int)
            }
        }),
        boundary_at(after, rows.len() as int) <= k ==> rewritten(
            rows,
            ops,
            boundary_at(after, rows.len() as int),
        ).len() <= rewritten(rows, ops, k).len(),
    decreases k,
{
    let op = LinePatchOpView::Append { after, lines: block };
    let all = ops.push(op);
    let b = boundary_at(after, rows.len() as int);
    assert(all.drop_last() =~= ops);
    assert(all.last() == op);
    assert forall|i: int| 1 <= i <= rows.len() implies #[trigger] new_text(rows, all, i)
        == new_text(rows, ops, i) by {
        assert(replacement_at(all, i) == replacement_at(ops, i));
    }
    lemma_put_behind_agrees(ops, rows, all, rows, ops, k);
    let here = put_behind(ops, rows, ops, k);
    assert(put_behind(all, rows, all, k) =~= here + (if k == b {
        block
    } else {
        seq![]
    }));
    let whole = rewritten(rows, ops, k);
    let before = rewritten(rows, ops, b);
    if k > 0 {
        lemma_appended_block_has_its_place(rows, ops, after, block, k - 1);
        assert(removal_at(all, k) == removal_at(ops, k));
        assert(stays(rows, all, k) == stays(rows, ops, k));
        if k < b {
            assert(rewritten(rows, all, k) =~= whole);
        } else if k == b {
            assert(rewritten(rows, all, k) =~= before + block + whole.skip(before.len() as int));
        } else {
            let less = rewritten(rows, ops, k - 1);
            assert(whole.skip(before.len() as int) =~= less.skip(before.len() as int) + stays(
                rows,
                ops,
                k,
            ) + here);
            assert(rewritten(rows, all, k) =~= before + block + whole.skip(before.len() as int));
        }
    } else if b == 0 {
        assert(rewritten(rows, all, k) =~= before + block + whole.skip(before.len() as int));
    } else {
        assert(rewritten(rows, all, k) =~= whole);
    }
}

/// A line that is deleted beside other instructions is left out of what they make, and
/// nothing else is.
pub proof fn lemma_deleted_line_is_left_out(
    rows: Seq<Seq<char>>,
    ops: Seq<LinePatchOpView>,
    n: usize,
    k: int,
)
    requires
        are_in_range(ops, rows.len() as int),
        1 <= n <= rows.len(),
        0 <= k <= rows.len(),
        forall|i: int| 0 <= i < ops.len() ==> !takes_line(#[trigger] ops[i], n as int),
    ensures
        ({
            let before = rewritten(rows, ops, n - 1);
            let whole = rewritten(rows, ops, k);
            rewritten(rows, ops.push(LinePatchOpView::Delete { start: n, end: n }), k) == if k < n {
                whole
            } else {
                before + whole.skip(before.len() as int + 1)
            }
        }),
        n <= k ==> rewritten(rows, ops, n - 1).len() < rewritten(rows, ops, k).len(),
        n <= k ==> rewritten(rows, ops, k)[rewritten(rows, ops, n - 1).len() as int] == new_text(
            rows,
            ops,
            n as int,
        ),
    decreases k,
{
    let op = LinePatchOpView::Delete { start: n, end: n };
    let all = ops.push(op);
    assert(all.drop_last() =~= ops);
    assert(all.last() == op);
    assert forall|i: int| 1 <= i <= rows.len() implies #[trigger] new_text(rows, all, i)
        == new_text(rows, ops, i) by {
        assert(replacement_at(all, i) == replacement_at(ops, i));
    }
    lemma_put_behind_agrees(ops, rows, all, rows, ops, k);
    let here = put_behind(ops, rows, ops, k);
    assert(put_behind(all, rows, all, k) =~= here);
    let whole = rewritten(rows, ops, k);
    let before = rewritten(rows, ops, n - 1);
    if k > 0 {
        lemma_deleted_line_is_left_out(rows, ops, n, k - 1);
        let w = lemma_who_takes(ops, n as int);
        if k < n {
            assert(stays(rows, all, k) == stays(rows, ops, k));
            assert(rewritten(rows, all, k) =~= whole);
        } else if k == n {
            assert(stays(rows, all, k) =~= seq![]);
            assert(stays(rows, ops, k) == seq![new_text(rows, ops, k)]);
            assert(whole[before.len() as int] == new_text(rows, ops, k));
            assert(rewritten(rows, all, k) =~= before + whole.skip(before.len() as int + 1));
        } else {
            assert(stays(rows, all, k) == stays(rows, ops, k));
            let less = rewritten(rows, ops, k - 1);
            assert(whole[before.len() as int] == less[before.len() as int]);
            assert(whole.skip(before.len() as int + 1) =~= less.skip(before.len() as int + 1)
                + stays(rows, ops, k) + here);
            assert(rewritten(rows, all, k) =~= before + whole.skip(before.len() as int + 1));
        }
    }
}

} // verus!
