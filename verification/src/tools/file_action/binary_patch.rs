//! Patches of bytes, in either of two forms. Hunks have headers such as
//! `replace OFFSET LEN` and `+HEX` bodies. Spans put all of a change in one line:
//! `***DELETE*** offset-len`, `***APPEND*** offset-len:HEX` and `offset-len:HEX`.

use crate::edits::laws::{growth, lemma_edited_len};
use crate::edits::{
    edit_bytes, edited, in_order, lemma_in_order_within, placed, precedes, spliced, within, Edit,
    EditView,
};
use crate::error::Error;
use crate::hex::{decode_hex, hex_bytes};
use crate::patch::bytes::{
    binary_hunk_edits, binary_hunks_of, byte_count, byte_offset, has_header_form,
    hunks_to_operations, is_header, lemma_binary_hunk_edits_within, missing_bytes,
    missing_bytes_error, parse_binary_patch, parse_byte_count, parse_byte_offset,
};
use crate::patch::{has_envelope, opens_envelope};
use crate::text::number::{append_dec, dec};
use crate::text::split::{
    after_last, after_prefix, find_char, index_of, is_text, last_index_end, lines as lines_of,
    split_lines, starts, strip_crs, trim, trimmed, without_crs,
};
use crate::text::{append_chars, chars_of, lemma_views_push, owned, views};
use vstd::prelude::*;
use vstd::slice::slice_subrange;

verus! {

/// Where appended bytes go.
#[derive(Clone, Copy, Debug, PartialEq, Eq, Structural)]
pub enum BinaryAppendTarget {
    Offset(usize),
    End,
}

/// The bytes of the file that a span is about.
#[derive(Clone, Copy, Debug, PartialEq, Eq, Structural)]
pub enum BinaryAnchor {
    Replace { offset: usize, len: usize },
    Delete { offset: usize, len: usize },
    Append { target: BinaryAppendTarget, len: usize },
}

#[derive(Debug)]
pub struct BinaryHunk {
    pub anchor: BinaryAnchor,
    pub bytes: Vec<u8>,
    pub order: usize,
}

#[verifier::ext_equal]
pub struct BinaryHunkView {
    pub anchor: BinaryAnchor,
    pub bytes: Seq<u8>,
    pub order: int,
}

impl View for BinaryHunk {
    type V = BinaryHunkView;

    open spec fn view(&self) -> BinaryHunkView {
        BinaryHunkView { anchor: self.anchor, bytes: self.bytes@, order: self.order as int }
    }
}

// ---------------------------------------------------------------------------
// Reading spans
// ---------------------------------------------------------------------------
/// `offset-len`, cut at the last `-`.
pub open spec fn offset_len(value: Seq<char>) -> Result<(usize, usize), Seq<char>> {
    let k = after_last(value, '-');
    if k == 0 {
        Err("binary span must be `offset-len`"@)
    } else {
        match byte_offset(trim(value.take(k - 1))) {
            Err(m) => Err(m),
            Ok(offset) => match byte_count(trim(value.skip(k))) {
                Err(m) => Err(m),
                Ok(len) => Ok((offset, len)),
            },
        }
    }
}

fn parse_binary_offset_len(value: &[char]) -> (r: Result<(usize, usize), Error>)
    ensures
        match r {
            Ok(p) => offset_len(value@) == Ok::<(usize, usize), Seq<char>>(p),
            Err(e) => offset_len(value@) == Err::<(usize, usize), Seq<char>>(e@),
        },
{
    let k: usize = last_index_end(value, '-');
    if k == 0 {
        return Err(Error::of("binary span must be `offset-len`"));
    }
    match parse_byte_offset(trimmed(slice_subrange(value, 0, k - 1))) {
        Err(e) => Err(e),
        Ok(offset) => match parse_byte_count(trimmed(slice_subrange(value, k, value.len()))) {
            Err(e) => Err(e),
            Ok(len) => Ok((offset, len)),
        },
    }
}

/// `offset-len` where the offset may be `-1` for the end.
pub open spec fn append_span(value: Seq<char>) -> Result<(BinaryAppendTarget, usize), Seq<char>> {
    let k = after_last(value, '-');
    if k == 0 {
        Err("binary append span must be `offset-len`"@)
    } else {
        let head = trim(value.take(k - 1));
        if head != "-1"@ && byte_offset(head) is Err {
            Err(byte_offset(head)->Err_0)
        } else {
            match byte_count(trim(value.skip(k))) {
                Err(m) => Err(m),
                Ok(len) => Ok(
                    (
                        if head == "-1"@ {
                            BinaryAppendTarget::End
                        } else {
                            BinaryAppendTarget::Offset(byte_offset(head)->Ok_0)
                        },
                        len,
                    ),
                ),
            }
        }
    }
}

fn parse_binary_append_span(value: &[char]) -> (r: Result<(BinaryAppendTarget, usize), Error>)
    ensures
        match r {
            Ok(p) => append_span(value@) == Ok::<(BinaryAppendTarget, usize), Seq<char>>(p),
            Err(e) => append_span(value@) == Err::<(BinaryAppendTarget, usize), Seq<char>>(e@),
        },
{
    let k: usize = last_index_end(value, '-');
    if k == 0 {
        return Err(Error::of("binary append span must be `offset-len`"));
    }
    let head = trimmed(slice_subrange(value, 0, k - 1));
    let target = if is_text(head, "-1") {
        BinaryAppendTarget::End
    } else {
        match parse_byte_offset(head) {
            Ok(offset) => BinaryAppendTarget::Offset(offset),
            Err(e) => {
                return Err(e);
            },
        }
    };
    match parse_byte_count(trimmed(slice_subrange(value, k, value.len()))) {
        Err(e) => Err(e),
        Ok(len) => Ok((target, len)),
    }
}

/// The bytes of a body that has to hold `expected` of them.
pub open spec fn counted_bytes(hex: Seq<char>, expected: int, line: Seq<char>) -> Result<
    Seq<u8>,
    Seq<char>,
> {
    match hex_bytes(hex) {
        Err(m) => Err(m),
        Ok(bytes) => if bytes.len() != expected {
            Err(
                "binary patch instruction `"@ + line + "` declares "@ + dec(expected as nat)
                    + " byte(s) but contains "@ + dec(bytes.len()) + " byte(s)"@,
            )
        } else {
            Ok(bytes)
        },
    }
}

fn read_counted_bytes(hex: &[char], expected: usize, line: &[char]) -> (r: Result<Vec<u8>, Error>)
    ensures
        match r {
            Ok(b) => counted_bytes(hex@, expected as int, line@) == Ok::<Seq<u8>, Seq<char>>(b@),
            Err(e) => counted_bytes(hex@, expected as int, line@) == Err::<Seq<u8>, Seq<char>>(e@),
        },
{
    let bytes = match decode_hex(hex) {
        Ok(b) => b,
        Err(e) => {
            return Err(e);
        },
    };
    if bytes.len() != expected {
        let mut m = owned("binary patch instruction `");
        append_chars(&mut m, line);
        m.append("` declares ");
        append_dec(&mut m, expected as u64);
        m.append(" byte(s) but contains ");
        append_dec(&mut m, bytes.len() as u64);
        m.append(" byte(s)");
        return Err(Error::new(m));
    }
    Ok(bytes)
}

pub open spec fn append_instruction(line: Seq<char>, rest: Seq<char>, order: int) -> Result<
    BinaryHunkView,
    Seq<char>,
> {
    let value = trim(rest);
    let k = find_char(value, ':');
    if k >= value.len() {
        Err("binary patch instruction `"@ + line + "` is missing `:HEX`"@)
    } else {
        match append_span(trim(value.take(k))) {
            Err(m) => Err(m),
            Ok((target, len)) => match counted_bytes(value.skip(k + 1), len as int, line) {
                Err(m) => Err(m),
                Ok(bytes) => Ok(
                    BinaryHunkView { anchor: BinaryAnchor::Append { target, len }, bytes, order },
                ),
            },
        }
    }
}

/// The instruction that a line is.
pub open spec fn instruction_of(line: Seq<char>, order: int) -> Result<BinaryHunkView, Seq<char>> {
    let t = trim(line);
    let k = find_char(t, ':');
    if starts(t, "***DELETE***"@) {
        match offset_len(trim(t.skip("***DELETE***"@.len() as int))) {
            Err(m) => Err(m),
            Ok((offset, len)) => Ok(
                BinaryHunkView {
                    anchor: BinaryAnchor::Delete { offset, len },
                    bytes: seq![],
                    order,
                },
            ),
        }
    } else if starts(t, "***APPEND***"@) {
        append_instruction(line, t.skip("***APPEND***"@.len() as int), order)
    } else if k < t.len() {
        match offset_len(trim(t.take(k))) {
            Err(m) => Err(m),
            Ok((offset, len)) => match counted_bytes(t.skip(k + 1), len as int, line) {
                Err(m) => Err(m),
                Ok(bytes) => Ok(
                    BinaryHunkView { anchor: BinaryAnchor::Replace { offset, len }, bytes, order },
                ),
            },
        }
    } else {
        Err(
            "invalid binary patch instruction `"@ + line
                + "`; expected `***DELETE*** offset-len`, `***APPEND*** offset-len:HEX`, or `offset-len:HEX`"@,
        )
    }
}

fn parse_append_instruction(line: &[char], rest: &[char], order: usize) -> (r: Result<
    BinaryHunk,
    Error,
>)
    ensures
        match r {
            Ok(h) => append_instruction(line@, rest@, order as int) == Ok::<
                BinaryHunkView,
                Seq<char>,
            >(h@),
            Err(e) => append_instruction(line@, rest@, order as int) == Err::<
                BinaryHunkView,
                Seq<char>,
            >(e@),
        },
{
    let value = trimmed(rest);
    let k: usize = index_of(value, ':');
    if k >= value.len() {
        let mut m = owned("binary patch instruction `");
        append_chars(&mut m, line);
        m.append("` is missing `:HEX`");
        return Err(Error::new(m));
    }
    let (target, len) = match parse_binary_append_span(trimmed(slice_subrange(value, 0, k))) {
        Ok(p) => p,
        Err(e) => {
            return Err(e);
        },
    };
    match read_counted_bytes(slice_subrange(value, k + 1, value.len()), len, line) {
        Ok(bytes) => Ok(BinaryHunk { anchor: BinaryAnchor::Append { target, len }, bytes, order }),
        Err(e) => Err(e),
    }
}

fn parse_instruction(line: &[char], order: usize) -> (r: Result<BinaryHunk, Error>)
    ensures
        match r {
            Ok(h) => instruction_of(line@, order as int) == Ok::<BinaryHunkView, Seq<char>>(h@),
            Err(e) => instruction_of(line@, order as int) == Err::<BinaryHunkView, Seq<char>>(e@),
        },
{
    let t = trimmed(line);
    match after_prefix(t, "***DELETE***") {
        Some(rest) => {
            return match parse_binary_offset_len(trimmed(rest)) {
                Ok((offset, len)) => Ok(
                    BinaryHunk {
                        anchor: BinaryAnchor::Delete { offset, len },
                        bytes: Vec::new(),
                        order,
                    },
                ),
                Err(e) => Err(e),
            };
        },
        None => {},
    }
    match after_prefix(t, "***APPEND***") {
        Some(rest) => {
            return parse_append_instruction(line, rest, order);
        },
        None => {},
    }
    let k: usize = index_of(t, ':');
    if k < t.len() {
        let (offset, len) = match parse_binary_offset_len(trimmed(slice_subrange(t, 0, k))) {
            Ok(p) => p,
            Err(e) => {
                return Err(e);
            },
        };
        return match read_counted_bytes(slice_subrange(t, k + 1, t.len()), len, line) {
            Ok(bytes) => Ok(
                BinaryHunk { anchor: BinaryAnchor::Replace { offset, len }, bytes, order },
            ),
            Err(e) => Err(e),
        };
    }
    let mut m = owned("invalid binary patch instruction `");
    append_chars(&mut m, line);
    m.append(
        "`; expected `***DELETE*** offset-len`, `***APPEND*** offset-len:HEX`, or `offset-len:HEX`",
    );
    Err(Error::new(m))
}

/// The instructions among the first `k` lines; blank lines count for nothing
/// but their number.
pub open spec fn read_spans(lines: Seq<Seq<char>>, k: int) -> Result<
    Seq<BinaryHunkView>,
    Seq<char>,
>
    decreases k,
{
    if k <= 0 {
        Ok(seq![])
    } else {
        match read_spans(lines, k - 1) {
            Err(m) => Err(m),
            Ok(hunks) => {
                let line = strip_crs(lines[k - 1]);
                if trim(line).len() == 0 {
                    Ok(hunks)
                } else {
                    match instruction_of(line, k - 1) {
                        Err(m) => Err(m),
                        Ok(h) => Ok(hunks.push(h)),
                    }
                }
            },
        }
    }
}

proof fn lemma_read_spans_fails(lines: Seq<Seq<char>>, k: int, n: int)
    requires
        0 <= k <= n,
        read_spans(lines, k) is Err,
    ensures
        read_spans(lines, n) == read_spans(lines, k),
    decreases n - k,
{
    if k < n {
        lemma_read_spans_fails(lines, k, n - 1);
    }
}

/// The spans of a patch, or what is wrong with it.
pub open spec fn spans_of(patch: Seq<char>) -> Result<Seq<BinaryHunkView>, Seq<char>> {
    if has_envelope(patch) {
        Err(
            "old patch envelope format is not supported; pass filePath separately and use binary patchText"@,
        )
    } else {
        match read_spans(lines_of(patch), lines_of(patch).len() as int) {
            Err(m) => Err(m),
            Ok(hunks) => if hunks.len() == 0 {
                Err("patchText did not contain any hunks"@)
            } else {
                Ok(hunks)
            },
        }
    }
}

/// Reads a patch made of spans.
pub fn parse_binary_spans(patch_text: &str) -> (r: Result<Vec<BinaryHunk>, Error>)
    ensures
        match r {
            Ok(hunks) => spans_of(patch_text@) == Ok::<Seq<BinaryHunkView>, Seq<char>>(
                views(hunks@),
            ),
            Err(e) => spans_of(patch_text@) == Err::<Seq<BinaryHunkView>, Seq<char>>(e@),
        },
{
    broadcast use lemma_views_push;

    let text = chars_of(patch_text);
    if opens_envelope(text.as_slice()) {
        return Err(
            Error::of(
                "old patch envelope format is not supported; pass filePath separately and use binary patchText",
            ),
        );
    }
    let all = split_lines(text.as_slice());
    let ghost rows = lines_of(patch_text@);
    let mut hunks: Vec<BinaryHunk> = Vec::new();
    let mut i: usize = 0;
    proof {
        assert(views(hunks@) =~= seq![]);
    }
    while i < all.len()
        invariant
            i <= all@.len(),
            rows == views(all@),
            rows == lines_of(patch_text@),
            !has_envelope(patch_text@),
            read_spans(rows, i as int) == Ok::<Seq<BinaryHunkView>, Seq<char>>(views(hunks@)),
        decreases all@.len() - i,
    {
        let line = without_crs(all[i]);
        let ghost before = hunks@;
        proof {
            assert(rows[i as int] == all@[i as int]@);
        }
        if trimmed(line).len() != 0 {
            match parse_instruction(line, i) {
                Ok(h) => {
                    hunks.push(h);
                    proof {
                        assert(views(hunks@) == views(before).push(h@));
                    }
                },
                Err(e) => {
                    proof {
                        lemma_read_spans_fails(rows, i + 1, rows.len() as int);
                    }
                    return Err(e);
                },
            }
        }
        i = i + 1;
    }
    if hunks.len() == 0 {
        return Err(Error::of("patchText did not contain any hunks"));
    }
    Ok(hunks)
}

// ---------------------------------------------------------------------------
// Spans as edits
// ---------------------------------------------------------------------------
pub open spec fn span_end(offset: int, len: int, total: int) -> Result<int, Seq<char>> {
    if offset + len <= total {
        Ok(offset + len)
    } else {
        Err(missing_bytes(offset, len, total))
    }
}

/// The edit that a span makes to a file of `total` bytes.
pub open spec fn span_edit(h: BinaryHunkView, total: int) -> Result<EditView<u8>, Seq<char>> {
    match h.anchor {
        BinaryAnchor::Replace { offset, len } => match span_end(offset as int, len as int, total) {
            Err(m) => Err(m),
            Ok(end) => Ok(
                EditView { start: offset as int, end, replacement: h.bytes, order: h.order },
            ),
        },
        BinaryAnchor::Delete { offset, len } => match span_end(offset as int, len as int, total) {
            Err(m) => Err(m),
            Ok(end) => Ok(
                EditView { start: offset as int, end, replacement: h.bytes, order: h.order },
            ),
        },
        BinaryAnchor::Append { target, .. } => match target {
            BinaryAppendTarget::End => Ok(
                EditView { start: total, end: total, replacement: h.bytes, order: h.order },
            ),
            BinaryAppendTarget::Offset(offset) => if offset > total {
                Err(
                    "append offset "@ + dec(offset as nat) + " is out of range for this file ("@
                        + dec(total as nat)
                        + " bytes); use offset 0 for the start or -1 for the end"@,
                )
            } else {
                Ok(
                    EditView {
                        start: offset as int,
                        end: offset as int,
                        replacement: h.bytes,
                        order: h.order,
                    },
                )
            },
        },
    }
}

pub fn hunk_to_binary_operation(hunk: &BinaryHunk, total: usize) -> (r: Result<Edit<u8>, Error>)
    ensures
        match r {
            Ok(op) => span_edit(hunk@, total as int) == Ok::<EditView<u8>, Seq<char>>(op@)
                && op.start <= op.end <= total,
            Err(e) => span_edit(hunk@, total as int) == Err::<EditView<u8>, Seq<char>>(e@),
        },
{
    let (start, end): (usize, usize) = match hunk.anchor {
        BinaryAnchor::Replace { offset, len } => {
            if offset > total || len > total - offset {
                return Err(missing_bytes_error(offset, len, total));
            }
            (offset, offset + len)
        },
        BinaryAnchor::Delete { offset, len } => {
            if offset > total || len > total - offset {
                return Err(missing_bytes_error(offset, len, total));
            }
            (offset, offset + len)
        },
        BinaryAnchor::Append { target, .. } => match target {
            BinaryAppendTarget::End => (total, total),
            BinaryAppendTarget::Offset(offset) => {
                if offset > total {
                    let mut m = owned("append offset ");
                    append_dec(&mut m, offset as u64);
                    m.append(" is out of range for this file (");
                    append_dec(&mut m, total as u64);
                    m.append(" bytes); use offset 0 for the start or -1 for the end");
                    return Err(Error::new(m));
                }
                (offset, offset)
            },
        },
    };
    let replacement = crate::bytes::copied(hunk.bytes.as_slice());
    proof {
        assert(views(replacement@) =~= hunk.bytes@);
    }
    Ok(Edit { start, end, replacement, order: hunk.order })
}

/// The edits of all spans, or the first that fails.
pub open spec fn span_edits(hunks: Seq<BinaryHunkView>, total: int) -> Result<
    Seq<EditView<u8>>,
    Seq<char>,
>
    decreases hunks.len(),
{
    if hunks.len() == 0 {
        Ok(seq![])
    } else {
        match span_edits(hunks.drop_last(), total) {
            Err(m) => Err(m),
            Ok(edits) => match span_edit(hunks.last(), total) {
                Err(m) => Err(m),
                Ok(edit) => Ok(edits.push(edit)),
            },
        }
    }
}

proof fn lemma_span_edits_fail(hunks: Seq<BinaryHunkView>, total: int, k: int)
    requires
        0 <= k <= hunks.len(),
        span_edits(hunks.take(k), total) is Err,
    ensures
        span_edits(hunks, total) == span_edits(hunks.take(k), total),
    decreases hunks.len(),
{
    if k == hunks.len() {
        assert(hunks.take(k) =~= hunks);
    } else {
        assert(hunks.drop_last().take(k) =~= hunks.take(k));
        lemma_span_edits_fail(hunks.drop_last(), total, k);
    }
}

proof fn lemma_span_edits_within(hunks: Seq<BinaryHunkView>, total: int)
    requires
        total >= 0,
        span_edits(hunks, total) is Ok,
    ensures
        within(span_edits(hunks, total)->Ok_0, total),
    decreases hunks.len(),
{
    if hunks.len() > 0 {
        lemma_span_edits_within(hunks.drop_last(), total);
    }
}

fn spans_to_operations(hunks: &[BinaryHunk], total: usize) -> (r: Result<Vec<Edit<u8>>, Error>)
    ensures
        match r {
            Ok(ops) => span_edits(views(hunks@), total as int) == Ok::<
                Seq<EditView<u8>>,
                Seq<char>,
            >(views(ops@)) && within(views(ops@), total as int),
            Err(e) => span_edits(views(hunks@), total as int) == Err::<
                Seq<EditView<u8>>,
                Seq<char>,
            >(e@),
        },
{
    broadcast use lemma_views_push;

    let ghost all = views(hunks@);
    let mut ops: Vec<Edit<u8>> = Vec::new();
    let mut i: usize = 0;
    proof {
        assert(all.take(0) =~= seq![]);
        assert(views(ops@) =~= seq![]);
    }
    while i < hunks.len()
        invariant
            i <= hunks@.len(),
            all == views(hunks@),
            span_edits(all.take(i as int), total as int) == Ok::<Seq<EditView<u8>>, Seq<char>>(
                views(ops@),
            ),
            within(views(ops@), total as int),
        decreases hunks@.len() - i,
    {
        let ghost now = all.take(i + 1);
        proof {
            assert(now.drop_last() =~= all.take(i as int));
            assert(now.last() == hunks@[i as int]@);
        }
        match hunk_to_binary_operation(&hunks[i], total) {
            Ok(op) => {
                let ghost before = ops@;
                ops.push(op);
                proof {
                    assert(views(ops@) == views(before).push(op@));
                }
            },
            Err(e) => {
                proof {
                    lemma_span_edits_fail(all, total as int, i + 1);
                }
                return Err(e);
            },
        }
        i = i + 1;
    }
    proof {
        assert(all.take(all.len() as int) =~= all);
    }
    Ok(ops)
}

// ---------------------------------------------------------------------------
// Either form
// ---------------------------------------------------------------------------
/// Whether the first line that is not blank is a hunk header.
pub open spec fn opens_with_header(lines: Seq<Seq<char>>) -> bool
    decreases lines.len(),
{
    if lines.len() == 0 {
        false
    } else if trim(lines[0]).len() == 0 {
        opens_with_header(lines.drop_first())
    } else {
        is_header(lines[0])
    }
}

fn has_opening_header(patch: &[char]) -> (r: bool)
    ensures
        r == opens_with_header(lines_of(patch@)),
{
    let all = split_lines(patch);
    let ghost rows = lines_of(patch@);
    let mut i: usize = 0;
    proof {
        assert(rows.skip(0) =~= rows);
    }
    while i < all.len()
        invariant
            i <= all@.len(),
            rows == views(all@),
            opens_with_header(rows) == opens_with_header(rows.skip(i as int)),
            rows == lines_of(patch@),
        decreases all@.len() - i,
    {
        proof {
            assert(rows.skip(i as int)[0] == all@[i as int]@);
            assert(rows.skip(i as int).drop_first() =~= rows.skip(i + 1));
        }
        if trimmed(all[i]).len() != 0 {
            return has_header_form(all[i]);
        }
        i = i + 1;
    }
    false
}

/// The edits that a patch makes to a file of `total` bytes.
pub open spec fn binary_edits(patch: Seq<char>, total: int) -> Result<
    Seq<EditView<u8>>,
    Seq<char>,
> {
    if opens_with_header(lines_of(patch)) {
        match binary_hunks_of(patch) {
            Err(m) => Err(m),
            Ok(hunks) => binary_hunk_edits(hunks, total),
        }
    } else {
        match spans_of(patch) {
            Err(m) => Err(m),
            Ok(hunks) => span_edits(hunks, total),
        }
    }
}

fn read_binary_edits(patch_text: &str, total: usize) -> (r: Result<Vec<Edit<u8>>, Error>)
    ensures
        match r {
            Ok(ops) => binary_edits(patch_text@, total as int) == Ok::<
                Seq<EditView<u8>>,
                Seq<char>,
            >(views(ops@)) && within(views(ops@), total as int),
            Err(e) => binary_edits(patch_text@, total as int) == Err::<
                Seq<EditView<u8>>,
                Seq<char>,
            >(e@),
        },
{
    let text = chars_of(patch_text);
    if has_opening_header(text.as_slice()) {
        match parse_binary_patch(patch_text) {
            Err(e) => Err(e),
            Ok(hunks) => hunks_to_operations(hunks.as_slice(), total),
        }
    } else {
        match parse_binary_spans(patch_text) {
            Err(e) => Err(e),
            Ok(hunks) => spans_to_operations(hunks.as_slice(), total),
        }
    }
}

/// How many bytes edits put in.
pub open spec fn bytes_added(edits: Seq<EditView<u8>>) -> nat
    decreases edits.len(),
{
    if edits.len() == 0 {
        0
    } else {
        bytes_added(edits.drop_last()) + edits.last().replacement.len()
    }
}

/// How many bytes edits take out.
pub open spec fn bytes_removed(edits: Seq<EditView<u8>>) -> int
    decreases edits.len(),
{
    if edits.len() == 0 {
        0
    } else {
        bytes_removed(edits.drop_last()) + (edits.last().end - edits.last().start)
    }
}

#[derive(Debug)]
pub struct BinaryPatchApplied {
    pub bytes: Vec<u8>,
    pub additions: usize,
    pub deletions: usize,
}

#[verifier::ext_equal]
pub struct BinaryPatchAppliedView {
    pub bytes: Seq<u8>,
    pub additions: int,
    pub deletions: int,
}

impl View for BinaryPatchApplied {
    type V = BinaryPatchAppliedView;

    open spec fn view(&self) -> BinaryPatchAppliedView {
        BinaryPatchAppliedView {
            bytes: self.bytes@,
            additions: self.additions as int,
            deletions: self.deletions as int,
        }
    }
}

/// Bytes with a patch applied, or what stands in the way.
pub open spec fn binary_patched(bytes: Seq<u8>, patch: Seq<char>) -> Result<
    BinaryPatchAppliedView,
    Seq<char>,
> {
    match binary_edits(patch, bytes.len() as int) {
        Err(m) => Err(m),
        Ok(edits) => match edited(bytes, edits) {
            None => Err("binary patch hunks overlap or target already replaced bytes"@),
            Some(out) => Ok(
                BinaryPatchAppliedView {
                    bytes: out,
                    additions: bytes_added(edits) as int,
                    deletions: bytes_removed(edits),
                },
            ),
        },
    }
}

proof fn lemma_growth_parts(edits: Seq<EditView<u8>>)
    ensures
        growth(edits) == bytes_added(edits) - bytes_removed(edits),
    decreases edits.len(),
{
    if edits.len() > 0 {
        lemma_growth_parts(edits.drop_last());
    }
}

proof fn lemma_counts_grow(edits: Seq<EditView<u8>>, total: int, k: int)
    requires
        within(edits, total),
        0 <= k <= edits.len(),
    ensures
        bytes_added(edits.take(k)) <= bytes_added(edits),
        0 <= bytes_removed(edits.take(k)) <= bytes_removed(edits),
    decreases edits.len(),
{
    if k == edits.len() {
        assert(edits.take(k) =~= edits);
        if edits.len() > 0 {
            let most = edits.drop_last();
            assert forall|i: int| 0 <= i < most.len() implies 0 <= (#[trigger] most[i]).start
                <= most[i].end <= total by {
                assert(most[i] == edits[i]);
            }
            lemma_counts_grow(most, total, most.len() as int);
            assert(most.take(most.len() as int) =~= most);
            assert(edits[edits.len() - 1].start <= edits[edits.len() - 1].end);
        }
    } else {
        let most = edits.drop_last();
        assert forall|i: int| 0 <= i < most.len() implies 0 <= (#[trigger] most[i]).start
            <= most[i].end <= total by {
            assert(most[i] == edits[i]);
        }
        assert(most.take(k) =~= edits.take(k));
        lemma_counts_grow(most, total, k);
        assert(edits[edits.len() - 1].start <= edits[edits.len() - 1].end);
    }
}

proof fn lemma_removed_bound(bytes: Seq<u8>, edits: Seq<EditView<u8>>)
    requires
        within(edits, bytes.len() as int),
        edited(bytes, edits) is Some,
    ensures
        bytes_removed(edits) <= bytes.len(),
{
    let sorted = in_order(edits);
    lemma_in_order_within(edits, bytes.len() as int);
    lemma_sorted_removed(bytes, sorted, 0);
    lemma_removed_in_order(edits);
}

proof fn lemma_removed_first(edits: Seq<EditView<u8>>)
    requires
        edits.len() > 0,
    ensures
        bytes_removed(edits) == edits[0].end - edits[0].start + bytes_removed(edits.drop_first()),
    decreases edits.len(),
{
    if edits.len() > 1 {
        lemma_removed_first(edits.drop_last());
        assert(edits.drop_last().drop_first() =~= edits.drop_first().drop_last());
    } else {
        assert(edits.drop_last() =~= seq![]);
        assert(edits.drop_first() =~= seq![]);
        assert(bytes_removed(edits.drop_last()) == 0);
    }
}

proof fn lemma_sorted_removed(bytes: Seq<u8>, sorted: Seq<EditView<u8>>, cursor: int)
    requires
        within(sorted, bytes.len() as int),
        0 <= cursor <= bytes.len(),
        spliced(bytes, sorted, cursor) is Some,
    ensures
        bytes_removed(sorted) <= bytes.len() - cursor,
    decreases sorted.len(),
{
    if sorted.len() > 0 {
        let rest = sorted.drop_first();
        assert forall|i: int| 0 <= i < rest.len() implies 0 <= (#[trigger] rest[i]).start
            <= rest[i].end <= bytes.len() by {
            assert(rest[i] == sorted[i + 1]);
        }
        lemma_sorted_removed(bytes, rest, sorted[0].end);
        lemma_removed_first(sorted);
    }
}

proof fn lemma_removed_placed(sorted: Seq<EditView<u8>>, e: EditView<u8>)
    ensures
        bytes_removed(placed(sorted, e)) == bytes_removed(sorted) + (e.end - e.start),
    decreases sorted.len(),
{
    if sorted.len() > 0 && precedes(e, sorted.last()) {
        lemma_removed_placed(sorted.drop_last(), e);
        let out = placed(sorted.drop_last(), e).push(sorted.last());
        assert(out.drop_last() =~= placed(sorted.drop_last(), e));
    } else {
        assert(sorted.push(e).drop_last() =~= sorted);
    }
}

proof fn lemma_removed_in_order(edits: Seq<EditView<u8>>)
    ensures
        bytes_removed(in_order(edits)) == bytes_removed(edits),
    decreases edits.len(),
{
    if edits.len() > 0 {
        lemma_removed_in_order(edits.drop_last());
        lemma_removed_placed(in_order(edits.drop_last()), edits.last());
    }
}

/// Applies a patch to bytes. All offsets are those of the bytes as given.
pub fn apply_binary_patch(bytes: &[u8], patch_text: &str) -> (r: Result<BinaryPatchApplied, Error>)
    ensures
        match r {
            Ok(out) => binary_patched(bytes@, patch_text@) == Ok::<
                BinaryPatchAppliedView,
                Seq<char>,
            >(out@),
            Err(e) => binary_patched(bytes@, patch_text@) == Err::<
                BinaryPatchAppliedView,
                Seq<char>,
            >(e@),
        },
{
    let ops = match read_binary_edits(patch_text, bytes.len()) {
        Ok(ops) => ops,
        Err(e) => {
            return Err(e);
        },
    };
    let ghost edits = views(ops@);
    let mut sizes: Vec<(usize, usize)> = Vec::new();
    let mut i: usize = 0;
    while i < ops.len()
        invariant
            i <= ops@.len(),
            edits == views(ops@),
            within(edits, bytes@.len() as int),
            sizes@.len() == i,
            forall|j: int|
                0 <= j < i ==> (#[trigger] sizes@[j]).0 == edits[j].replacement.len() && sizes@[j].1
                    == edits[j].end - edits[j].start,
        decreases ops@.len() - i,
    {
        let op = &ops[i];
        proof {
            assert(edits[i as int] == op@);
        }
        sizes.push((op.replacement.len(), op.end - op.start));
        i = i + 1;
    }
    proof {
        assert(views(bytes@) =~= bytes@);
    }
    let out = match edit_bytes(bytes, ops) {
        Some(out) => out,
        None => {
            return Err(Error::of("binary patch hunks overlap or target already replaced bytes"));
        },
    };
    let out_len: usize = out.len();
    proof {
        assert(views(out@) =~= out@);
        lemma_edited_len(bytes@, edits);
        lemma_growth_parts(edits);
        lemma_removed_bound(bytes@, edits);
        assert(edits.take(0) =~= seq![]);
    }
    let mut additions: usize = 0;
    let mut deletions: usize = 0;
    let mut k: usize = 0;
    while k < sizes.len()
        invariant
            k <= sizes@.len() == edits.len(),
            within(edits, bytes@.len() as int),
            bytes_removed(edits) <= usize::MAX,
            bytes_added(edits) <= usize::MAX,
            additions == bytes_added(edits.take(k as int)),
            deletions == bytes_removed(edits.take(k as int)),
            forall|j: int|
                0 <= j < sizes@.len() ==> (#[trigger] sizes@[j]).0 == edits[j].replacement.len()
                    && sizes@[j].1 == edits[j].end - edits[j].start,
        decreases sizes@.len() - k,
    {
        proof {
            lemma_counts_grow(edits, bytes@.len() as int, k + 1);
            assert(edits.take(k + 1).drop_last() =~= edits.take(k as int));
        }
        additions = additions + sizes[k].0;
        deletions = deletions + sizes[k].1;
        k = k + 1;
    }
    proof {
        assert(edits.take(edits.len() as int) =~= edits);
    }
    Ok(BinaryPatchApplied { bytes: out, additions, deletions })
}

/// A patched file is as long as before, plus the bytes that the patch adds, less
/// those that it removes.
pub proof fn lemma_binary_patched_len(bytes: Seq<u8>, patch: Seq<char>)
    requires
        binary_patched(bytes, patch) is Ok,
    ensures
        ({
            let applied = binary_patched(bytes, patch)->Ok_0;
            applied.bytes.len() == bytes.len() + applied.additions - applied.deletions
        }),
{
    let total = bytes.len() as int;
    let edits = binary_edits(patch, total)->Ok_0;
    if opens_with_header(lines_of(patch)) {
        lemma_binary_hunk_edits_within(binary_hunks_of(patch)->Ok_0, total);
    } else {
        lemma_span_edits_within(spans_of(patch)->Ok_0, total);
    }
    lemma_edited_len(bytes, edits);
    lemma_growth_parts(edits);
}

} // verus!
