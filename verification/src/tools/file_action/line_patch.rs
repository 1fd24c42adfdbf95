//! Line instructions: `***DELETE*** a-b`, `***MOVE*** a-b,n`,
//! `***APPEND_HEAD*** n` up to `***APPEND_END***`, and `n:new text`. All line
//! numbers are those of the text before the patch.

use crate::edits::copy_lines;
use crate::error::Error;
use crate::protocol::opt_text;
use crate::shape::{has_final_newline, split_terminated_lines, terminated_lines};
use crate::text::number::{append_dec, dec, parse_unsigned, parse_usize};
use crate::text::split::{
    after_prefix, find_char, index_of, is_text, join, joined, lines as lines_of, split_lines,
    starts, strip_crs, trim, trimmed, without_crs,
};
use crate::text::{append_chars, chars_of, lemma_views_push, owned, string_of, views};
use vstd::prelude::*;
use vstd::slice::slice_subrange;

verus! {

/// Where lines go: in front, behind a line, or at the end.
#[derive(Clone, Copy, Debug, PartialEq, Eq, Structural)]
pub enum LineInsertTarget {
    Start,
    After(usize),
    End,
}

#[derive(Clone, Copy, Debug, PartialEq, Eq, Structural)]
pub enum LineRemoval {
    Delete,
    Move,
}

/// One instruction of a line patch.
#[derive(Debug)]
pub enum LinePatchOp {
    Delete { start: usize, end: usize },
    Move { start: usize, end: usize, after: LineInsertTarget },
    Append { after: LineInsertTarget, lines: Vec<String> },
    Replace { line: usize, text: String },
}

#[verifier::ext_equal]
pub enum LinePatchOpView {
    Delete { start: usize, end: usize },
    Move { start: usize, end: usize, after: LineInsertTarget },
    Append { after: LineInsertTarget, lines: Seq<Seq<char>> },
    Replace { line: usize, text: Seq<char> },
}

impl View for LinePatchOp {
    type V = LinePatchOpView;

    open spec fn view(&self) -> LinePatchOpView {
        match self {
            LinePatchOp::Delete { start, end } => LinePatchOpView::Delete {
                start: *start,
                end: *end,
            },
            LinePatchOp::Move { start, end, after } => LinePatchOpView::Move {
                start: *start,
                end: *end,
                after: *after,
            },
            LinePatchOp::Append { after, lines } => LinePatchOpView::Append {
                after: *after,
                lines: views(lines@),
            },
            LinePatchOp::Replace { line, text } => LinePatchOpView::Replace {
                line: *line,
                text: text@,
            },
        }
    }
}

// ---------------------------------------------------------------------------
// Reading instructions
// ---------------------------------------------------------------------------
/// A line number, zero only where it is allowed.
pub open spec fn number_of(value: Seq<char>, allow_zero: bool) -> Option<usize> {
    match parse_unsigned(value, usize::MAX as nat) {
        Some(n) => if n == 0 && !allow_zero {
            None
        } else {
            Some(n as usize)
        },
        None => None,
    }
}

fn parse_line_number(value: &[char], allow_zero: bool) -> (r: Option<usize>)
    ensures
        r == number_of(value@, allow_zero),
{
    match parse_usize(value) {
        Some(n) => if n == 0 && !allow_zero {
            None
        } else {
            Some(n)
        },
        None => None,
    }
}

/// A range `start-end` of lines.
pub open spec fn range_of(value: Seq<char>) -> Option<(usize, usize)> {
    let k = find_char(value, '-');
    if k >= value.len() {
        None
    } else {
        match (number_of(trim(value.take(k)), false), number_of(trim(value.skip(k + 1)), false)) {
            (Some(start), Some(end)) => if start > end {
                None
            } else {
                Some((start, end))
            },
            _ => None,
        }
    }
}

fn parse_line_range(value: &[char]) -> (r: Option<(usize, usize)>)
    ensures
        r == range_of(value@),
{
    let k: usize = index_of(value, '-');
    if k >= value.len() {
        return None;
    }
    let start = parse_line_number(trimmed(slice_subrange(value, 0, k)), false);
    let end = parse_line_number(trimmed(slice_subrange(value, k + 1, value.len())), false);
    match (start, end) {
        (Some(start), Some(end)) => if start > end {
            None
        } else {
            Some((start, end))
        },
        _ => None,
    }
}

pub open spec fn target_of(value: Seq<char>) -> Option<LineInsertTarget> {
    if value == "-1"@ {
        Some(LineInsertTarget::End)
    } else {
        match number_of(value, true) {
            None => None,
            Some(n) => if n == 0 {
                Some(LineInsertTarget::Start)
            } else {
                Some(LineInsertTarget::After(n))
            },
        }
    }
}

fn parse_line_insert_target(value: &[char]) -> (r: Option<LineInsertTarget>)
    ensures
        r == target_of(value@),
{
    if is_text(value, "-1") {
        return Some(LineInsertTarget::End);
    }
    match parse_line_number(value, true) {
        None => None,
        Some(n) => if n == 0 {
            Some(LineInsertTarget::Start)
        } else {
            Some(LineInsertTarget::After(n))
        },
    }
}

/// A complaint that quotes the line it is about.
pub open spec fn about_line(what: Seq<char>, line: Seq<char>) -> Seq<char> {
    what + ": `"@ + line + "`"@
}

fn line_error(what: &str, line: &[char]) -> (r: Error)
    ensures
        r@ == about_line(what@, line@),
{
    let mut m = owned(what);
    m.append(": `");
    append_chars(&mut m, line);
    m.append("`");
    Error::new(m)
}

pub open spec fn delete_op(line: Seq<char>, rest: Seq<char>) -> Result<LinePatchOpView, Seq<char>> {
    match range_of(trim(rest)) {
        None => Err(about_line("invalid DELETE instruction"@, line)),
        Some((start, end)) => Ok(LinePatchOpView::Delete { start, end }),
    }
}

pub open spec fn move_op(line: Seq<char>, rest: Seq<char>) -> Result<LinePatchOpView, Seq<char>> {
    let value = trim(rest);
    let k = find_char(value, ',');
    if k >= value.len() {
        Err("MOVE must be `***MOVE*** start-end,startline`"@)
    } else {
        match range_of(trim(value.take(k))) {
            None => Err(about_line("invalid MOVE range"@, line)),
            Some((start, end)) => match target_of(trim(value.skip(k + 1))) {
                None => Err(about_line("invalid MOVE target"@, line)),
                Some(after) => Ok(LinePatchOpView::Move { start, end, after }),
            },
        }
    }
}

fn parse_delete(line: &[char], rest: &[char]) -> (r: Result<LinePatchOp, Error>)
    ensures
        match r {
            Ok(op) => delete_op(line@, rest@) == Ok::<LinePatchOpView, Seq<char>>(op@),
            Err(e) => delete_op(line@, rest@) == Err::<LinePatchOpView, Seq<char>>(e@),
        },
{
    match parse_line_range(trimmed(rest)) {
        None => Err(line_error("invalid DELETE instruction", line)),
        Some((start, end)) => Ok(LinePatchOp::Delete { start, end }),
    }
}

fn parse_move(line: &[char], rest: &[char]) -> (r: Result<LinePatchOp, Error>)
    ensures
        match r {
            Ok(op) => move_op(line@, rest@) == Ok::<LinePatchOpView, Seq<char>>(op@),
            Err(e) => move_op(line@, rest@) == Err::<LinePatchOpView, Seq<char>>(e@),
        },
{
    let value = trimmed(rest);
    let k: usize = index_of(value, ',');
    if k >= value.len() {
        return Err(Error::of("MOVE must be `***MOVE*** start-end,startline`"));
    }
    let (start, end) = match parse_line_range(trimmed(slice_subrange(value, 0, k))) {
        None => {
            return Err(line_error("invalid MOVE range", line));
        },
        Some(p) => p,
    };
    match parse_line_insert_target(trimmed(slice_subrange(value, k + 1, value.len()))) {
        None => Err(line_error("invalid MOVE target", line)),
        Some(after) => Ok(LinePatchOp::Move { start, end, after }),
    }
}

/// The instruction that gives a line a new text.
pub open spec fn replace_op(line: Seq<char>) -> Result<LinePatchOpView, Seq<char>> {
    let k = find_char(line, ':');
    if k >= line.len() {
        Err(
            "invalid patchText instruction `"@ + line
                + "`; expected `***DELETE*** start-end`, `***MOVE*** start-end,startline`, `***APPEND_HEAD*** startline ... ***APPEND_END***`, or `n:new text`"@,
        )
    } else {
        match number_of(trim(line.take(k)), false) {
            None => Err(about_line("invalid replace instruction"@, line)),
            Some(n) => Ok(LinePatchOpView::Replace { line: n, text: line.skip(k + 1) }),
        }
    }
}

fn parse_replace(line: &[char]) -> (r: Result<LinePatchOp, Error>)
    ensures
        match r {
            Ok(op) => replace_op(line@) == Ok::<LinePatchOpView, Seq<char>>(op@),
            Err(e) => replace_op(line@) == Err::<LinePatchOpView, Seq<char>>(e@),
        },
{
    let k: usize = index_of(line, ':');
    if k >= line.len() {
        let mut m = owned("invalid patchText instruction `");
        append_chars(&mut m, line);
        m.append(
            "`; expected `***DELETE*** start-end`, `***MOVE*** start-end,startline`, `***APPEND_HEAD*** startline ... ***APPEND_END***`, or `n:new text`",
        );
        return Err(Error::new(m));
    }
    match parse_line_number(trimmed(slice_subrange(line, 0, k)), false) {
        None => Err(line_error("invalid replace instruction", line)),
        Some(n) => {
            let text = slice_subrange(line, k + 1, line.len());
            Ok(LinePatchOp::Replace { line: n, text: string_of(text) })
        },
    }
}

/// The index of the line that closes an append block, or the length.
pub open spec fn block_end(lines: Seq<Seq<char>>) -> int
    decreases lines.len(),
{
    if lines.len() == 0 || trim(lines[0]) == "***APPEND_END***"@ {
        0
    } else {
        1 + block_end(lines.drop_first())
    }
}

/// Reads the instructions of `lines` behind those already read.
pub open spec fn read_ops(lines: Seq<Seq<char>>, ops: Seq<LinePatchOpView>) -> Result<
    Seq<LinePatchOpView>,
    Seq<char>,
>
    decreases lines.len(),
{
    if lines.len() == 0 {
        Ok(ops)
    } else {
        let line = lines[0];
        let rest = lines.drop_first();
        let t = trim(line);
        if t.len() == 0 {
            read_ops(rest, ops)
        } else if starts(t, "***DELETE***"@) {
            match delete_op(line, t.skip("***DELETE***"@.len() as int)) {
                Err(m) => Err(m),
                Ok(op) => read_ops(rest, ops.push(op)),
            }
        } else if starts(t, "***MOVE***"@) {
            match move_op(line, t.skip("***MOVE***"@.len() as int)) {
                Err(m) => Err(m),
                Ok(op) => read_ops(rest, ops.push(op)),
            }
        } else if starts(t, "***APPEND_HEAD***"@) {
            match target_of(trim(t.skip("***APPEND_HEAD***"@.len() as int))) {
                None => Err(about_line("invalid APPEND_HEAD target"@, line)),
                Some(after) => {
                    let k = block_end(rest);
                    if 0 <= k < rest.len() {
                        read_ops(
                            rest.skip(k + 1),
                            ops.push(LinePatchOpView::Append { after, lines: rest.take(k) }),
                        )
                    } else {
                        Err("APPEND_HEAD block is missing ***APPEND_END***"@)
                    }
                },
            }
        } else if t == "***APPEND_END***"@ {
            Err("APPEND_END without APPEND_HEAD"@)
        } else {
            match replace_op(line) {
                Err(m) => Err(m),
                Ok(op) => read_ops(rest, ops.push(op)),
            }
        }
    }
}

/// The lines of a patch, without the carriage returns at their ends.
pub open spec fn patch_lines(patch: Seq<char>) -> Seq<Seq<char>> {
    Seq::new(lines_of(patch).len(), |i: int| strip_crs(lines_of(patch)[i]))
}

/// The instructions of a patch, or what is wrong with it.
pub open spec fn line_ops(patch: Seq<char>) -> Result<Seq<LinePatchOpView>, Seq<char>> {
    read_ops(patch_lines(patch), seq![])
}

fn find_block_end(lines: &Vec<&[char]>, from: usize) -> (r: usize)
    requires
        from <= lines@.len(),
    ensures
        r == from + block_end(views(lines@).skip(from as int)),
        from <= r <= lines@.len(),
{
    let ghost all = views(lines@);
    let mut i: usize = from;
    while i < lines.len()
        invariant
            from <= i <= lines@.len(),
            all == views(lines@),
            block_end(all.skip(from as int)) == (i - from) + block_end(all.skip(i as int)),
        decreases lines@.len() - i,
    {
        proof {
            assert(all.skip(i as int)[0] == lines@[i as int]@);
            assert(all.skip(i as int).drop_first() =~= all.skip(i + 1));
        }
        if is_text(trimmed(lines[i]), "***APPEND_END***") {
            return i;
        }
        i = i + 1;
    }
    i
}

fn own_lines(lines: &Vec<&[char]>, from: usize, to: usize) -> (r: Vec<String>)
    requires
        from <= to <= lines@.len(),
    ensures
        views(r@) == views(lines@).subrange(from as int, to as int),
{
    broadcast use lemma_views_push;

    let ghost all = views(lines@);
    let mut out: Vec<String> = Vec::new();
    let mut i: usize = from;
    proof {
        assert(views(out@) =~= all.subrange(from as int, from as int));
    }
    while i < to
        invariant
            from <= i <= to <= lines@.len(),
            all == views(lines@),
            views(out@) == all.subrange(from as int, i as int),
        decreases to - i,
    {
        let ghost before = out@;
        out.push(string_of(lines[i]));
        proof {
            assert(views(out@) =~= views(before).push(all[i as int]));
            assert(all.subrange(from as int, i + 1) =~= all.subrange(from as int, i as int).push(
                all[i as int],
            ));
        }
        i = i + 1;
    }
    out
}

/// Reads the instructions of a patch.
pub fn parse_line_patch(patch_text: &str) -> (r: Result<Vec<LinePatchOp>, Error>)
    ensures
        match r {
            Ok(ops) => line_ops(patch_text@) == Ok::<Seq<LinePatchOpView>, Seq<char>>(views(ops@)),
            Err(e) => line_ops(patch_text@) == Err::<Seq<LinePatchOpView>, Seq<char>>(e@),
        },
{
    broadcast use lemma_views_push;

    let text = chars_of(patch_text);
    let raw = split_lines(text.as_slice());
    let mut lines: Vec<&[char]> = Vec::new();
    let mut k: usize = 0;
    while k < raw.len()
        invariant
            k <= raw@.len(),
            lines@.len() == k,
            views(raw@) == lines_of(patch_text@),
            forall|j: int| 0 <= j < k ==> (#[trigger] lines@[j])@ == strip_crs(raw@[j]@),
        decreases raw@.len() - k,
    {
        lines.push(without_crs(raw[k]));
        k = k + 1;
    }
    let ghost all = patch_lines(patch_text@);
    proof {
        assert(views(raw@).len() == lines_of(patch_text@).len());
        assert forall|j: int| 0 <= j < all.len() implies #[trigger] views(lines@)[j] == all[j] by {
            assert(views(raw@)[j] == raw@[j]@);
            assert(lines@[j]@ == strip_crs(raw@[j]@));
        }
        assert(views(lines@) =~= all);
    }
    let mut ops: Vec<LinePatchOp> = Vec::new();
    let mut i: usize = 0;
    proof {
        assert(views(ops@) =~= seq![]);
        assert(all.skip(0) =~= all);
    }
    while i < lines.len()
        invariant
            i <= lines@.len(),
            all == views(lines@),
            all == patch_lines(patch_text@),
            read_ops(all, seq![]) == read_ops(all.skip(i as int), views(ops@)),
        decreases lines@.len() - i,
    {
        let line = lines[i];
        let t = trimmed(line);
        let ghost before = ops@;
        proof {
            assert(all.skip(i as int)[0] == line@);
            assert(all.skip(i as int).drop_first() =~= all.skip(i + 1));
        }
        i = i + 1;
        if t.len() == 0 {
            continue;
        }
        match after_prefix(t, "***DELETE***") {
            Some(rest) => {
                match parse_delete(line, rest) {
                    Ok(op) => {
                        ops.push(op);
                        proof {
                            assert(views(ops@) == views(before).push(op@));
                        }
                        continue;
                    },
                    Err(e) => {
                        return Err(e);
                    },
                }
            },
            None => {},
        }
        match after_prefix(t, "***MOVE***") {
            Some(rest) => {
                match parse_move(line, rest) {
                    Ok(op) => {
                        ops.push(op);
                        proof {
                            assert(views(ops@) == views(before).push(op@));
                        }
                        continue;
                    },
                    Err(e) => {
                        return Err(e);
                    },
                }
            },
            None => {},
        }
        match after_prefix(t, "***APPEND_HEAD***") {
            Some(rest) => {
                let after = match parse_line_insert_target(trimmed(rest)) {
                    Some(after) => after,
                    None => {
                        return Err(line_error("invalid APPEND_HEAD target", line));
                    },
                };
                let end: usize = find_block_end(&lines, i);
                if end >= lines.len() {
                    return Err(Error::of("APPEND_HEAD block is missing ***APPEND_END***"));
                }
                let block = own_lines(&lines, i, end);
                let op = LinePatchOp::Append { after, lines: block };
                ops.push(op);
                proof {
                    let tail = all.skip(i as int);
                    let k = block_end(tail);
                    assert(tail.take(k) =~= all.subrange(i as int, end as int));
                    assert(tail.skip(k + 1) =~= all.skip(end + 1));
                    assert(views(ops@) == views(before).push(op@));
                }
                i = end + 1;
                continue;
            },
            None => {},
        }
        if is_text(t, "***APPEND_END***") {
            return Err(Error::of("APPEND_END without APPEND_HEAD"));
        }
        match parse_replace(line) {
            Ok(op) => {
                ops.push(op);
                proof {
                    assert(views(ops@) == views(before).push(op@));
                }
            },
            Err(e) => {
                return Err(e);
            },
        }
    }
    Ok(ops)
}

// ---------------------------------------------------------------------------
// What instructions say of one line
// ---------------------------------------------------------------------------
/// How an instruction takes line `i` away, where it does.
pub open spec fn takes_away(op: LinePatchOpView, i: int) -> Option<LineRemoval> {
    match op {
        LinePatchOpView::Delete { start, end } => if start <= i <= end {
            Some(LineRemoval::Delete)
        } else {
            None
        },
        LinePatchOpView::Move { start, end, .. } => if start <= i <= end {
            Some(LineRemoval::Move)
        } else {
            None
        },
        _ => None,
    }
}

/// How the instructions take line `i` away, where one does.
pub open spec fn removal_at(ops: Seq<LinePatchOpView>, i: int) -> Option<LineRemoval>
    decreases ops.len(),
{
    if ops.len() == 0 {
        None
    } else {
        match takes_away(ops.last(), i) {
            Some(r) => Some(r),
            None => removal_at(ops.drop_last(), i),
        }
    }
}

/// The text that the instructions give line `i`, where one does.
pub open spec fn replacement_at(ops: Seq<LinePatchOpView>, i: int) -> Option<Seq<char>>
    decreases ops.len(),
{
    if ops.len() == 0 {
        None
    } else {
        match ops.last() {
            LinePatchOpView::Replace { line, text } => if line == i {
                Some(text)
            } else {
                replacement_at(ops.drop_last(), i)
            },
            _ => replacement_at(ops.drop_last(), i),
        }
    }
}

/// The text of line `i` after the patch, wherever it ends up.
pub open spec fn new_text(lines: Seq<Seq<char>>, ops: Seq<LinePatchOpView>, i: int) -> Seq<char> {
    match replacement_at(ops, i) {
        Some(text) => text,
        None => lines[i - 1],
    }
}

/// The number of lines that stand before what goes to a target.
pub open spec fn boundary_of(target: LineInsertTarget, total: int) -> int {
    match target {
        LineInsertTarget::Start => 0,
        LineInsertTarget::End => total,
        LineInsertTarget::After(line) => line as int,
    }
}

/// The lines that an instruction puts behind line `b`.
pub open spec fn puts_behind(
    op: LinePatchOpView,
    lines: Seq<Seq<char>>,
    ops: Seq<LinePatchOpView>,
    b: int,
) -> Seq<Seq<char>> {
    match op {
        LinePatchOpView::Append { after, lines: block } => if boundary_of(
            after,
            lines.len() as int,
        ) == b {
            block
        } else {
            seq![]
        },
        LinePatchOpView::Move { start, end, after } => if boundary_of(after, lines.len() as int)
            == b {
            Seq::new((end - start + 1) as nat, |k: int| new_text(lines, ops, start + k))
        } else {
            seq![]
        },
        _ => seq![],
    }
}

/// The lines that the first instructions put behind line `b`, in their order.
pub open spec fn put_behind(
    first: Seq<LinePatchOpView>,
    lines: Seq<Seq<char>>,
    ops: Seq<LinePatchOpView>,
    b: int,
) -> Seq<Seq<char>>
    decreases first.len(),
{
    if first.len() == 0 {
        seq![]
    } else {
        put_behind(first.drop_last(), lines, ops, b) + puts_behind(first.last(), lines, ops, b)
    }
}

/// Line `i` itself, unless it was taken away.
pub open spec fn stays(lines: Seq<Seq<char>>, ops: Seq<LinePatchOpView>, i: int) -> Seq<Seq<char>> {
    match removal_at(ops, i) {
        Some(_) => seq![],
        None => seq![new_text(lines, ops, i)],
    }
}

/// What the first `k` lines become, with all that goes behind each of them.
pub open spec fn rewritten(lines: Seq<Seq<char>>, ops: Seq<LinePatchOpView>, k: int) -> Seq<
    Seq<char>,
>
    decreases k,
{
    if k <= 0 {
        put_behind(ops, lines, ops, 0)
    } else {
        rewritten(lines, ops, k - 1) + stays(lines, ops, k) + put_behind(ops, lines, ops, k)
    }
}

// ---------------------------------------------------------------------------
// What stands in the way
// ---------------------------------------------------------------------------
pub open spec fn range_text(start: int, end: int) -> Seq<char> {
    dec(start as nat) + "-"@ + dec(end as nat)
}

pub open spec fn range_fault(start: int, end: int, total: int, label: Seq<char>) -> Option<
    Seq<char>,
> {
    if start == 0 || end == 0 || start > end || end > total {
        Some(
            label + " line range "@ + range_text(start, end) + " is out of range for "@ + dec(
                total as nat,
            ) + " line(s)"@,
        )
    } else {
        None
    }
}

pub open spec fn target_fault(target: LineInsertTarget, total: int, label: Seq<char>) -> Option<
    Seq<char>,
> {
    match target {
        LineInsertTarget::After(line) => if line > total {
            Some(
                label + " line "@ + dec(line as nat) + " is out of range for "@ + dec(total as nat)
                    + " line(s)"@,
            )
        } else {
            None
        },
        _ => None,
    }
}

pub open spec fn removal_label(r: LineRemoval) -> Seq<char> {
    match r {
        LineRemoval::Delete => "DELETE"@,
        LineRemoval::Move => "MOVE"@,
    }
}

/// The first of the lines `start` to `end` that earlier instructions took away.
pub open spec fn first_taken(ops: Seq<LinePatchOpView>, start: int, end: int) -> Option<int>
    decreases end - start + 1,
{
    if start > end {
        None
    } else if removal_at(ops, start) is Some {
        Some(start)
    } else {
        first_taken(ops, start + 1, end)
    }
}

pub open spec fn overlap_fault(
    ops: Seq<LinePatchOpView>,
    start: int,
    end: int,
    removal: LineRemoval,
) -> Option<Seq<char>> {
    match first_taken(ops, start, end) {
        None => None,
        Some(line) => Some(
            removal_label(removal) + " line range "@ + range_text(start, end) + " overlaps "@
                + removal_label(removal_at(ops, line)->Some_0) + " line "@ + dec(line as nat),
        ),
    }
}

/// Why an instruction cannot follow the earlier ones.
pub open spec fn op_fault(earlier: Seq<LinePatchOpView>, op: LinePatchOpView, total: int) -> Option<
    Seq<char>,
> {
    match op {
        LinePatchOpView::Delete { start, end } => match range_fault(
            start as int,
            end as int,
            total,
            "DELETE"@,
        ) {
            Some(m) => Some(m),
            None => overlap_fault(earlier, start as int, end as int, LineRemoval::Delete),
        },
        LinePatchOpView::Move { start, end, after } => match range_fault(
            start as int,
            end as int,
            total,
            "MOVE"@,
        ) {
            Some(m) => Some(m),
            None => match inside_fault(start, end, after) {
                Some(m) => Some(m),
                None => match target_fault(after, total, "MOVE target"@) {
                    Some(m) => Some(m),
                    None => overlap_fault(earlier, start as int, end as int, LineRemoval::Move),
                },
            },
        },
        LinePatchOpView::Append { after, .. } => target_fault(after, total, "APPEND_HEAD target"@),
        LinePatchOpView::Replace { line, .. } => match range_fault(
            line as int,
            line as int,
            total,
            "replace"@,
        ) {
            Some(m) => Some(m),
            None => if replacement_at(earlier, line as int) is Some {
                Some("replace line "@ + dec(line as nat) + " is targeted more than once"@)
            } else {
                None
            },
        },
    }
}

/// A block cannot move behind one of its own lines.
pub open spec fn inside_fault(start: usize, end: usize, after: LineInsertTarget) -> Option<
    Seq<char>,
> {
    match after {
        LineInsertTarget::After(line) => if start <= line <= end {
            Some(
                "MOVE target line "@ + dec(line as nat) + " is inside moved range "@ + range_text(
                    start as int,
                    end as int,
                ),
            )
        } else {
            None
        },
        _ => None,
    }
}

pub open spec fn first_op_fault(ops: Seq<LinePatchOpView>, total: int) -> Option<Seq<char>>
    decreases ops.len(),
{
    if ops.len() == 0 {
        None
    } else {
        match first_op_fault(ops.drop_last(), total) {
            Some(m) => Some(m),
            None => op_fault(ops.drop_last(), ops.last(), total),
        }
    }
}

/// The first line from `i` on that is both replaced and deleted.
pub open spec fn replaced_and_deleted(ops: Seq<LinePatchOpView>, i: int, total: int) -> Option<int>
    decreases total - i + 1,
{
    if i > total {
        None
    } else if replacement_at(ops, i) is Some && removal_at(ops, i) == Some(LineRemoval::Delete) {
        Some(i)
    } else {
        replaced_and_deleted(ops, i + 1, total)
    }
}

/// Why a file of `total` lines cannot be patched.
pub open spec fn patch_fault(ops: Seq<LinePatchOpView>, total: int) -> Option<Seq<char>> {
    match first_op_fault(ops, total) {
        Some(m) => Some(m),
        None => match replaced_and_deleted(ops, 1, total) {
            Some(i) => Some("replace line "@ + dec(i as nat) + " overlaps deleted line"@),
            None => None,
        },
    }
}

/// A text whose lines are `lines`, each closed by a line end.
pub open spec fn closed_lines(lines: Seq<Seq<char>>, had_final: bool) -> Seq<char> {
    join(lines, "\n"@) + (if had_final || lines.len() > 0 {
        "\n"@
    } else {
        seq![]
    })
}

/// A text with instructions carried out, or what stands in the way.
pub open spec fn line_patched(text: Seq<char>, ops: Seq<LinePatchOpView>) -> Result<
    Seq<char>,
    Seq<char>,
> {
    let lines = terminated_lines(text);
    match patch_fault(ops, lines.len() as int) {
        Some(m) => Err(m),
        None => Ok(
            closed_lines(rewritten(lines, ops, lines.len() as int), has_final_newline(text)),
        ),
    }
}

// ---------------------------------------------------------------------------
// Carrying instructions out
// ---------------------------------------------------------------------------
fn append_range(m: &mut String, start: usize, end: usize)
    ensures
        final(m)@ == old(m)@ + range_text(start as int, end as int),
{
    append_dec(m, start as u64);
    m.append("-");
    append_dec(m, end as u64);
    proof {
        assert(m@ =~= old(m)@ + range_text(start as int, end as int));
    }
}

fn ensure_line_range(start: usize, end: usize, total: usize, label: &str) -> (r: Result<(), Error>)
    ensures
        match r {
            Ok(_) => range_fault(start as int, end as int, total as int, label@) is None,
            Err(e) => range_fault(start as int, end as int, total as int, label@) == Some(e@),
        },
{
    if start == 0 || end == 0 || start > end || end > total {
        let mut m = owned(label);
        m.append(" line range ");
        append_range(&mut m, start, end);
        m.append(" is out of range for ");
        append_dec(&mut m, total as u64);
        m.append(" line(s)");
        return Err(Error::new(m));
    }
    Ok(())
}

fn find_boundary(target: LineInsertTarget, total: usize, label: &str) -> (r: Result<usize, Error>)
    ensures
        match r {
            Ok(b) => target_fault(target, total as int, label@) is None && b == boundary_of(
                target,
                total as int,
            ) && b <= total,
            Err(e) => target_fault(target, total as int, label@) == Some(e@),
        },
{
    match target {
        LineInsertTarget::Start => Ok(0),
        LineInsertTarget::End => Ok(total),
        LineInsertTarget::After(line) => {
            if line > total {
                let mut m = owned(label);
                m.append(" line ");
                append_dec(&mut m, line as u64);
                m.append(" is out of range for ");
                append_dec(&mut m, total as u64);
                m.append(" line(s)");
                return Err(Error::new(m));
            }
            Ok(line)
        },
    }
}

fn label_of(r: LineRemoval) -> (s: &'static str)
    ensures
        s@ == removal_label(r),
{
    match r {
        LineRemoval::Delete => "DELETE",
        LineRemoval::Move => "MOVE",
    }
}

/// The table of what was taken away says what the instructions say.
pub open spec fn removals_match(
    table: Seq<Option<LineRemoval>>,
    ops: Seq<LinePatchOpView>,
    total: int,
) -> bool {
    table.len() == total && forall|i: int|
        1 <= i <= total ==> #[trigger] removal_at(ops, i) == table[i - 1]
}

/// The table `after` is `before` with the lines `start` to `end` taken away.
pub open spec fn marked(
    before: Seq<Option<LineRemoval>>,
    after: Seq<Option<LineRemoval>>,
    start: int,
    end: int,
    removal: LineRemoval,
) -> bool {
    after.len() == before.len() && forall|i: int|
        0 <= i < before.len() ==> #[trigger] after[i] == if start <= i + 1 <= end {
            Some(removal)
        } else {
            before[i]
        }
}

fn mark_line_removal(
    table: &mut Vec<Option<LineRemoval>>,
    start: usize,
    end: usize,
    removal: LineRemoval,
    Ghost(earlier): Ghost<Seq<LinePatchOpView>>,
) -> (r: Result<(), Error>)
    requires
        removals_match(old(table)@, earlier, old(table)@.len() as int),
        1 <= start <= end <= old(table)@.len(),
    ensures
        match r {
            Ok(_) => overlap_fault(earlier, start as int, end as int, removal) is None
                && marked(old(table)@, final(table)@, start as int, end as int, removal),
            Err(e) => overlap_fault(earlier, start as int, end as int, removal) == Some(e@),
        },
{
    let ghost given = table@;
    let ghost total = table@.len() as int;
    let mut k: usize = start - 1;
    while k < end
        invariant
            start - 1 <= k <= end <= total,
            1 <= start,
            table@ == given,
            given.len() == total,
            removals_match(given, earlier, total),
            first_taken(earlier, start as int, end as int) == first_taken(
                earlier,
                k + 1,
                end as int,
            ),
        decreases end - k,
    {
        proof {
            assert(removal_at(earlier, k + 1) == given[k as int]);
        }
        match table[k] {
            Some(existing) => {
                let mut m = owned(label_of(removal));
                m.append(" line range ");
                append_range(&mut m, start, end);
                m.append(" overlaps ");
                m.append(label_of(existing));
                m.append(" line ");
                append_dec(&mut m, (k + 1) as u64);
                return Err(Error::new(m));
            },
            None => {},
        }
        k = k + 1;
    }
    let mut k: usize = start - 1;
    while k < end
        invariant
            start - 1 <= k <= end <= total,
            1 <= start,
            given.len() == total,
            marked(given, table@, start as int, k as int, removal),
        decreases end - k,
    {
        table.set(k, Some(removal));
        k = k + 1;
    }
    Ok(())
}

/// The table of new texts says what the instructions say.
pub open spec fn replacements_match(
    table: Seq<Option<String>>,
    ops: Seq<LinePatchOpView>,
    total: int,
) -> bool {
    table.len() == total && forall|i: int|
        1 <= i <= total ==> #[trigger] replacement_at(ops, i) == opt_text(table[i - 1])
}

/// The positions that an instruction names lie within the file.
pub open spec fn op_fits(op: LinePatchOpView, total: int) -> bool {
    match op {
        LinePatchOpView::Delete { start, end } => 1 <= start <= end <= total,
        LinePatchOpView::Move { start, end, after } => 1 <= start <= end <= total && boundary_of(
            after,
            total,
        ) <= total,
        LinePatchOpView::Append { after, .. } => boundary_of(after, total) <= total,
        LinePatchOpView::Replace { line, .. } => 1 <= line <= total,
    }
}

pub proof fn lemma_ops_fit(ops: Seq<LinePatchOpView>, total: int)
    requires
        total >= 0,
        first_op_fault(ops, total) is None,
    ensures
        forall|j: int| 0 <= j < ops.len() ==> op_fits(#[trigger] ops[j], total),
    decreases ops.len(),
{
    if ops.len() > 0 {
        lemma_ops_fit(ops.drop_last(), total);
        assert forall|j: int| 0 <= j < ops.len() implies op_fits(#[trigger] ops[j], total) by {
            if j < ops.len() - 1 {
                assert(ops[j] == ops.drop_last()[j]);
            } else {
                assert(ops[j] == ops.last());
            }
        }
    }
}

proof fn lemma_fault_stays(ops: Seq<LinePatchOpView>, total: int, k: int)
    requires
        0 <= k <= ops.len(),
        first_op_fault(ops.take(k), total) is Some,
    ensures
        first_op_fault(ops, total) == first_op_fault(ops.take(k), total),
    decreases ops.len(),
{
    if k == ops.len() {
        assert(ops.take(k) =~= ops);
    } else {
        assert(ops.drop_last().take(k) =~= ops.take(k));
        lemma_fault_stays(ops.drop_last(), total, k);
    }
}

/// Takes one instruction into the tables, or says why it cannot follow.
fn take_op(
    op: &LinePatchOp,
    total: usize,
    removals: &mut Vec<Option<LineRemoval>>,
    replacements: &mut Vec<Option<String>>,
    Ghost(earlier): Ghost<Seq<LinePatchOpView>>,
) -> (r: Result<(), Error>)
    requires
        removals_match(old(removals)@, earlier, total as int),
        replacements_match(old(replacements)@, earlier, total as int),
    ensures
        match r {
            Ok(_) => op_fault(earlier, op@, total as int) is None && removals_match(
                final(removals)@,
                earlier.push(op@),
                total as int,
            ) && replacements_match(final(replacements)@, earlier.push(op@), total as int),
            Err(e) => op_fault(earlier, op@, total as int) == Some(e@),
        },
{
    let ghost now = earlier.push(op@);
    proof {
        assert(now.drop_last() =~= earlier);
        assert(now.last() == op@);
    }
    match op {
        LinePatchOp::Delete { start, end } => {
            match ensure_line_range(*start, *end, total, "DELETE") {
                Ok(_) => {},
                Err(e) => {
                    return Err(e);
                },
            }
            match mark_line_removal(removals, *start, *end, LineRemoval::Delete, Ghost(earlier)) {
                Ok(_) => {},
                Err(e) => {
                    return Err(e);
                },
            }
            proof {
                assert forall|i: int| 1 <= i <= total implies #[trigger] removal_at(now, i)
                    == removals@[i - 1] by {
                    assert(removal_at(earlier, i) == old(removals)@[i - 1]);
                }
                assert forall|i: int| 1 <= i <= total implies #[trigger] replacement_at(now, i)
                    == opt_text(replacements@[i - 1]) by {
                    assert(replacement_at(earlier, i) == opt_text(old(replacements)@[i - 1]));
                }
            }
        },
        LinePatchOp::Move { start, end, after } => {
            match ensure_line_range(*start, *end, total, "MOVE") {
                Ok(_) => {},
                Err(e) => {
                    return Err(e);
                },
            }
            match *after {
                LineInsertTarget::After(line) => {
                    if *start <= line && line <= *end {
                        let mut m = owned("MOVE target line ");
                        append_dec(&mut m, line as u64);
                        m.append(" is inside moved range ");
                        append_range(&mut m, *start, *end);
                        return Err(Error::new(m));
                    }
                },
                _ => {},
            }
            match find_boundary(*after, total, "MOVE target") {
                Ok(_) => {},
                Err(e) => {
                    return Err(e);
                },
            }
            match mark_line_removal(removals, *start, *end, LineRemoval::Move, Ghost(earlier)) {
                Ok(_) => {},
                Err(e) => {
                    return Err(e);
                },
            }
            proof {
                assert forall|i: int| 1 <= i <= total implies #[trigger] removal_at(now, i)
                    == removals@[i - 1] by {
                    assert(removal_at(earlier, i) == old(removals)@[i - 1]);
                }
                assert forall|i: int| 1 <= i <= total implies #[trigger] replacement_at(now, i)
                    == opt_text(replacements@[i - 1]) by {
                    assert(replacement_at(earlier, i) == opt_text(old(replacements)@[i - 1]));
                }
            }
        },
        LinePatchOp::Append { after, .. } => {
            match find_boundary(*after, total, "APPEND_HEAD target") {
                Ok(_) => {},
                Err(e) => {
                    return Err(e);
                },
            }
            proof {
                assert forall|i: int| 1 <= i <= total implies #[trigger] removal_at(now, i)
                    == removals@[i - 1] by {
                    assert(removal_at(earlier, i) == old(removals)@[i - 1]);
                }
                assert forall|i: int| 1 <= i <= total implies #[trigger] replacement_at(now, i)
                    == opt_text(replacements@[i - 1]) by {
                    assert(replacement_at(earlier, i) == opt_text(old(replacements)@[i - 1]));
                }
            }
        },
        LinePatchOp::Replace { line, text } => {
            match ensure_line_range(*line, *line, total, "replace") {
                Ok(_) => {},
                Err(e) => {
                    return Err(e);
                },
            }
            let k: usize = *line - 1;
            proof {
                assert(replacement_at(earlier, *line as int) == opt_text(replacements@[k as int]));
            }
            if replacements[k].is_some() {
                let mut m = owned("replace line ");
                append_dec(&mut m, *line as u64);
                m.append(" is targeted more than once");
                return Err(Error::new(m));
            }
            replacements.set(k, Some(text.clone()));
            proof {
                assert forall|i: int| 1 <= i <= total implies #[trigger] removal_at(now, i)
                    == removals@[i - 1] by {
                    assert(removal_at(earlier, i) == old(removals)@[i - 1]);
                }
                assert forall|i: int| 1 <= i <= total implies #[trigger] replacement_at(now, i)
                    == opt_text(replacements@[i - 1]) by {
                    assert(replacement_at(earlier, i) == opt_text(old(replacements)@[i - 1]));
                }
            }
        },
    }
    Ok(())
}

/// The text of one line after the patch.
fn line_text(
    lines: &Vec<String>,
    replacements: &Vec<Option<String>>,
    line: usize,
    Ghost(ops): Ghost<Seq<LinePatchOpView>>,
) -> (r: String)
    requires
        1 <= line <= lines@.len(),
        replacements_match(replacements@, ops, lines@.len() as int),
    ensures
        r@ == new_text(views(lines@), ops, line as int),
{
    proof {
        assert(replacement_at(ops, line as int) == opt_text(replacements@[line - 1]));
    }
    match &replacements[line - 1] {
        Some(text) => text.clone(),
        None => lines[line - 1].clone(),
    }
}

fn extend_at(slots: &mut Vec<Vec<String>>, b: usize, mut more: Vec<String>)
    requires
        b < old(slots)@.len(),
    ensures
        final(slots)@.len() == old(slots)@.len(),
        views(final(slots)@[b as int]@) == views(old(slots)@[b as int]@) + views(more@),
        forall|c: int|
            0 <= c < old(slots)@.len() && c != b ==> #[trigger] final(slots)@[c] == old(slots)@[c],
{
    let ghost before = slots@[b as int]@;
    let ghost added = more@;
    slots[b].append(&mut more);
    proof {
        assert(slots@[b as int]@ =~= before + added);
        assert(views(before + added) =~= views(before) + views(added));
    }
}

/// What goes behind each line, and in front of the first.
fn resolve_line_insertions(
    lines: &Vec<String>,
    replacements: &Vec<Option<String>>,
    ops: &[LinePatchOp],
) -> (r: Vec<Vec<String>>)
    requires
        replacements_match(replacements@, views(ops@), lines@.len() as int),
        forall|j: int| 0 <= j < ops@.len() ==> op_fits(#[trigger] views(ops@)[j], lines@.len() as int),
    ensures
        r@.len() == lines@.len() + 1,
        forall|b: int|
            0 <= b <= lines@.len() ==> views((#[trigger] r@[b])@) == put_behind(
                views(ops@),
                views(lines@),
                views(ops@),
                b,
            ),
{
    broadcast use lemma_views_push;

    let ghost all = views(ops@);
    let ghost rows = views(lines@);
    let total: usize = lines.len();
    let mut slots: Vec<Vec<String>> = Vec::new();
    slots.push(Vec::new());
    let mut n: usize = 0;
    while n < total
        invariant
            n <= total,
            slots@.len() == n + 1,
            forall|b: int| 0 <= b < slots@.len() ==> (#[trigger] slots@[b])@.len() == 0,
        decreases total - n,
    {
        slots.push(Vec::new());
        n = n + 1;
    }
    let mut k: usize = 0;
    proof {
        assert(all.take(0) =~= seq![]);
        assert forall|b: int| 0 <= b <= total implies views((#[trigger] slots@[b])@) == put_behind(
            all.take(0),
            rows,
            all,
            b,
        ) by {
            assert(views(slots@[b]@) =~= seq![]);
        }
    }
    while k < ops.len()
        invariant
            k <= ops@.len(),
            total == lines@.len(),
            all == views(ops@),
            rows == views(lines@),
            slots@.len() == total + 1,
            replacements_match(replacements@, all, total as int),
            forall|j: int| 0 <= j < ops@.len() ==> op_fits(#[trigger] all[j], total as int),
            forall|b: int|
                0 <= b <= total ==> views((#[trigger] slots@[b])@) == put_behind(
                    all.take(k as int),
                    rows,
                    all,
                    b,
                ),
        decreases ops@.len() - k,
    {
        let ghost before = slots@;
        let ghost op = all[k as int];
        proof {
            assert(all.take(k + 1).drop_last() =~= all.take(k as int));
            assert(op_fits(op, total as int));
            assert(op == ops@[k as int]@);
        }
        match &ops[k] {
            LinePatchOp::Append { after, lines: block } => {
                let b: usize = match *after {
                    LineInsertTarget::Start => 0,
                    LineInsertTarget::End => total,
                    LineInsertTarget::After(line) => line,
                };
                let mut more: Vec<String> = Vec::new();
                copy_lines(&mut more, block.as_slice(), 0, block.len());
                proof {
                    assert(views(block@).subrange(0, block@.len() as int) =~= views(block@));
                    assert(views(more@) =~= views(block@));
                }
                extend_at(&mut slots, b, more);
                proof {
                    assert forall|c: int| 0 <= c <= total implies views((#[trigger] slots@[c])@)
                        == put_behind(all.take(k + 1), rows, all, c) by {
                        assert(views(before[c]@) == put_behind(all.take(k as int), rows, all, c));
                        let add = puts_behind(op, rows, all, c);
                        assert(views(slots@[c]@) =~= views(before[c]@) + add);
                    }
                }
            },
            LinePatchOp::Move { start, end, after } => {
                let b: usize = match *after {
                    LineInsertTarget::Start => 0,
                    LineInsertTarget::End => total,
                    LineInsertTarget::After(line) => line,
                };
                let moved = moved_lines(lines, replacements, *start, *end, Ghost(all));
                extend_at(&mut slots, b, moved);
                proof {
                    assert forall|c: int| 0 <= c <= total implies views((#[trigger] slots@[c])@)
                        == put_behind(all.take(k + 1), rows, all, c) by {
                        assert(views(before[c]@) == put_behind(all.take(k as int), rows, all, c));
                        let add = puts_behind(op, rows, all, c);
                        assert(views(slots@[c]@) =~= views(before[c]@) + add);
                    }
                }
            },
            _ => {
                proof {
                    assert forall|c: int| 0 <= c <= total implies views((#[trigger] slots@[c])@)
                        == put_behind(all.take(k + 1), rows, all, c) by {
                        assert(views(before[c]@) == put_behind(all.take(k as int), rows, all, c));
                        let add = puts_behind(op, rows, all, c);
                        assert(views(slots@[c]@) =~= views(before[c]@) + add);
                    }
                }
            },
        }
        k = k + 1;
    }
    proof {
        assert(all.take(all.len() as int) =~= all);
    }
    slots
}

fn moved_lines(
    lines: &Vec<String>,
    replacements: &Vec<Option<String>>,
    start: usize,
    end: usize,
    Ghost(ops): Ghost<Seq<LinePatchOpView>>,
) -> (r: Vec<String>)
    requires
        1 <= start <= end <= lines@.len(),
        replacements_match(replacements@, ops, lines@.len() as int),
    ensures
        views(r@) == Seq::new(
            (end - start + 1) as nat,
            |k: int| new_text(views(lines@), ops, start + k),
        ),
{
    broadcast use lemma_views_push;

    let mut out: Vec<String> = Vec::new();
    let mut k: usize = start - 1;
    while k < end
        invariant
            1 <= start <= end <= lines@.len(),
            start - 1 <= k <= end,
            out@.len() == k - (start - 1),
            replacements_match(replacements@, ops, lines@.len() as int),
            forall|j: int|
                0 <= j < out@.len() ==> (#[trigger] out@[j])@ == new_text(
                    views(lines@),
                    ops,
                    start + j,
                ),
        decreases end - k,
    {
        out.push(line_text(lines, replacements, k + 1, Ghost(ops)));
        k = k + 1;
    }
    proof {
        assert(views(out@) =~= Seq::new(
            (end - start + 1) as nat,
            |k: int| new_text(views(lines@), ops, start + k),
        ));
    }
    out
}

fn find_replaced_and_deleted(
    removals: &Vec<Option<LineRemoval>>,
    replacements: &Vec<Option<String>>,
    Ghost(ops): Ghost<Seq<LinePatchOpView>>,
) -> (r: Option<usize>)
    requires
        removals_match(removals@, ops, removals@.len() as int),
        replacements_match(replacements@, ops, removals@.len() as int),
    ensures
        match r {
            Some(i) => replaced_and_deleted(ops, 1, removals@.len() as int) == Some(i as int),
            None => replaced_and_deleted(ops, 1, removals@.len() as int) is None,
        },
{
    let total: usize = removals.len();
    let mut k: usize = 0;
    while k < total
        invariant
            k <= total,
            total == removals@.len(),
            removals_match(removals@, ops, total as int),
            replacements_match(replacements@, ops, total as int),
            replaced_and_deleted(ops, 1, total as int) == replaced_and_deleted(
                ops,
                k + 1,
                total as int,
            ),
        decreases total - k,
    {
        proof {
            assert(removal_at(ops, k + 1) == removals@[k as int]);
            assert(replacement_at(ops, k + 1) == opt_text(replacements@[k as int]));
        }
        let deleted: bool = match removals[k] {
            Some(LineRemoval::Delete) => true,
            _ => false,
        };
        if replacements[k].is_some() && deleted {
            return Some(k + 1);
        }
        k = k + 1;
    }
    None
}

/// Carries instructions out on a text.
pub fn apply_line_patch(before_text: &str, ops: &[LinePatchOp]) -> (r: Result<String, Error>)
    ensures
        match r {
            Ok(out) => line_patched(before_text@, views(ops@)) == Ok::<Seq<char>, Seq<char>>(out@),
            Err(e) => line_patched(before_text@, views(ops@)) == Err::<Seq<char>, Seq<char>>(e@),
        },
{
    broadcast use lemma_views_push;

    let ghost all = views(ops@);
    let had_final_newline = ends_with_newline(before_text);
    let lines = split_terminated_lines(before_text);
    let total: usize = lines.len();
    let ghost rows = views(lines@);
    let mut removals: Vec<Option<LineRemoval>> = Vec::new();
    let mut replacements: Vec<Option<String>> = Vec::new();
    let mut n: usize = 0;
    while n < total
        invariant
            n <= total,
            removals@.len() == n,
            replacements@.len() == n,
            forall|i: int| 0 <= i < n ==> (#[trigger] removals@[i]) is None,
            forall|i: int| 0 <= i < n ==> (#[trigger] replacements@[i]) is None,
        decreases total - n,
    {
        removals.push(None);
        replacements.push(None);
        n = n + 1;
    }
    let mut k: usize = 0;
    proof {
        assert(all.take(0) =~= seq![]);
    }
    while k < ops.len()
        invariant
            k <= ops@.len(),
            all == views(ops@),
            rows == terminated_lines(before_text@),
            rows.len() == total,
            removals_match(removals@, all.take(k as int), total as int),
            replacements_match(replacements@, all.take(k as int), total as int),
            first_op_fault(all.take(k as int), total as int) is None,
        decreases ops@.len() - k,
    {
        proof {
            assert(all.take(k + 1) =~= all.take(k as int).push(ops@[k as int]@));
            assert(all.take(k + 1).drop_last() =~= all.take(k as int));
            assert(all.take(k + 1).last() == ops@[k as int]@);
        }
        match take_op(
            &ops[k],
            total,
            &mut removals,
            &mut replacements,
            Ghost(all.take(k as int)),
        ) {
            Ok(_) => {},
            Err(e) => {
                proof {
                    lemma_fault_stays(all, total as int, k + 1);
                }
                return Err(e);
            },
        }
        k = k + 1;
    }
    proof {
        assert(all.take(all.len() as int) =~= all);
        lemma_ops_fit(all, total as int);
    }
    match find_replaced_and_deleted(&removals, &replacements, Ghost(all)) {
        Some(i) => {
            let mut m = owned("replace line ");
            append_dec(&mut m, i as u64);
            m.append(" overlaps deleted line");
            return Err(Error::new(m));
        },
        None => {},
    }
    let slots = resolve_line_insertions(&lines, &replacements, ops);
    let mut out: Vec<String> = Vec::new();
    proof {
        assert(views(out@) =~= seq![]);
    }
    copy_lines(&mut out, slots[0].as_slice(), 0, slots[0].len());
    proof {
        let front = views(slots@[0]@);
        assert(front.subrange(0, front.len() as int) =~= front);
        assert(views(out@) =~= front);
    }
    let mut i: usize = 0;
    while i < total
        invariant
            i <= total,
            total == lines@.len(),
            rows == views(lines@),
            all == views(ops@),
            slots@.len() == total + 1,
            removals_match(removals@, all, total as int),
            replacements_match(replacements@, all, total as int),
            forall|b: int|
                0 <= b <= total ==> views((#[trigger] slots@[b])@) == put_behind(all, rows, all, b),
            views(out@) == rewritten(rows, all, i as int),
        decreases total - i,
    {
        let ghost start = views(out@);
        proof {
            assert(removal_at(all, i + 1) == removals@[i as int]);
        }
        if removals[i].is_none() {
            let text = line_text(&lines, &replacements, i + 1, Ghost(all));
            let ghost before = out@;
            out.push(text);
            proof {
                assert(views(out@) == views(before).push(text@));
                assert(views(out@) =~= start + stays(rows, all, i + 1));
            }
        } else {
            proof {
                assert(views(out@) =~= start + stays(rows, all, i + 1));
            }
        }
        let slot = &slots[i + 1];
        copy_lines(&mut out, slot.as_slice(), 0, slot.len());
        proof {
            let added = views(slots@[i + 1]@);
            assert(added.subrange(0, added.len() as int) =~= added);
            assert(views(out@) =~= start + stays(rows, all, i + 1) + added);
        }
        i = i + 1;
    }
    let mut text = joined(out.as_slice(), "\n");
    proof {
        assert(text@ + seq![] =~= text@);
        assert(views(out@).len() == out@.len());
    }
    if had_final_newline || out.len() > 0 {
        text.append("\n");
    }
    Ok(text)
}

fn ends_with_newline(text: &str) -> (r: bool)
    ensures
        r == has_final_newline(text@),
{
    let all = chars_of(text);
    let n: usize = all.len();
    n > 0 && all[n - 1] == '\n'
}

} // verus!
