//! Hunks of bytes: `replace OFFSET LEN`, `delete OFFSET LEN` and
//! `insert OFFSET`, each followed by `+HEX` lines. Offsets count from zero, and
//! a length of `-1` reaches to the end of the file.

use crate::edits::laws::{lemma_listing_does_not_matter, lemma_map_permutes, told_apart};
use crate::edits::{edit_bytes, edited, within, Edit, EditView};
use crate::error::Error;
use crate::hex::{decode_hex, hex_bytes};
use crate::patch::{has_envelope, opens_envelope};
use crate::text::number::{append_dec, dec, parse_unsigned, parse_usize};
use crate::text::split::{
    after_prefix, is_blank, is_text, lines as lines_of, split_lines, split_words, starts,
    starts_with, strip_crs, trim, without_crs, words,
};
use crate::text::{append_chars, chars_of, lemma_views_index, lemma_views_push, owned, views};
use vstd::prelude::*;

verus! {

/// How many bytes a hunk is about.
#[derive(Clone, Copy, Debug, PartialEq, Eq, Structural)]
pub enum ByteLen {
    Count(usize),
    Rest,
}

/// Where new bytes go.
#[derive(Clone, Copy, Debug, PartialEq, Eq, Structural)]
pub enum BinaryInsertTarget {
    Start,
    Offset(usize),
    End,
}

/// The bytes of the file that a hunk is about.
#[derive(Clone, Copy, Debug, PartialEq, Eq, Structural)]
pub enum BinaryAnchor {
    Replace { offset: usize, len: ByteLen },
    Delete { offset: usize, len: ByteLen },
    Insert { target: BinaryInsertTarget },
}

#[derive(Debug)]
pub struct BinaryHunk {
    pub anchor: BinaryAnchor,
    pub bytes: Vec<u8>,
    pub order: usize,
}

#[verifier::ext_equal]
pub struct BinaryHunkView {
    pub anchor: BinaryAnchor,
    pub bytes: Seq<u8>,
    pub order: int,
}

impl View for BinaryHunk {
    type V = BinaryHunkView;

    open spec fn view(&self) -> BinaryHunkView {
        BinaryHunkView { anchor: self.anchor, bytes: self.bytes@, order: self.order as int }
    }
}

// ---------------------------------------------------------------------------
// Reading a patch
// ---------------------------------------------------------------------------
pub open spec fn byte_offset(value: Seq<char>) -> Result<usize, Seq<char>> {
    match parse_unsigned(value, usize::MAX as nat) {
        None => Err("invalid byte offset `"@ + value + "`"@),
        Some(n) => Ok(n as usize),
    }
}

pub fn parse_byte_offset(value: &[char]) -> (r: Result<usize, Error>)
    ensures
        match r {
            Ok(n) => byte_offset(value@) == Ok::<usize, Seq<char>>(n),
            Err(e) => byte_offset(value@) == Err::<usize, Seq<char>>(e@),
        },
{
    match parse_usize(value) {
        None => {
            let mut m = owned("invalid byte offset `");
            append_chars(&mut m, value);
            m.append("`");
            Err(Error::new(m))
        },
        Some(n) => Ok(n),
    }
}

/// A number of bytes, at least one.
pub open spec fn byte_count(value: Seq<char>) -> Result<usize, Seq<char>> {
    match parse_unsigned(value, usize::MAX as nat) {
        None => Err("invalid byte length `"@ + value + "`"@),
        Some(n) => if n == 0 {
            Err("byte length must be greater than 0"@)
        } else {
            Ok(n as usize)
        },
    }
}

pub fn parse_byte_count(value: &[char]) -> (r: Result<usize, Error>)
    ensures
        match r {
            Ok(n) => byte_count(value@) == Ok::<usize, Seq<char>>(n),
            Err(e) => byte_count(value@) == Err::<usize, Seq<char>>(e@),
        },
{
    match parse_usize(value) {
        None => {
            let mut m = owned("invalid byte length `");
            append_chars(&mut m, value);
            m.append("`");
            Err(Error::new(m))
        },
        Some(n) => if n == 0 {
            Err(Error::of("byte length must be greater than 0"))
        } else {
            Ok(n)
        },
    }
}

pub open spec fn byte_len(value: Seq<char>) -> Result<ByteLen, Seq<char>> {
    if value == "-1"@ {
        Ok(ByteLen::Rest)
    } else {
        match byte_count(value) {
            Ok(n) => Ok(ByteLen::Count(n)),
            Err(m) => Err(m),
        }
    }
}

fn parse_byte_len(value: &[char]) -> (r: Result<ByteLen, Error>)
    ensures
        match r {
            Ok(n) => byte_len(value@) == Ok::<ByteLen, Seq<char>>(n),
            Err(e) => byte_len(value@) == Err::<ByteLen, Seq<char>>(e@),
        },
{
    if is_text(value, "-1") {
        return Ok(ByteLen::Rest);
    }
    match parse_byte_count(value) {
        Ok(n) => Ok(ByteLen::Count(n)),
        Err(e) => Err(e),
    }
}

pub open spec fn byte_insert_target(value: Seq<char>) -> Result<BinaryInsertTarget, Seq<char>> {
    if value == "0"@ {
        Ok(BinaryInsertTarget::Start)
    } else if value == "-1"@ {
        Ok(BinaryInsertTarget::End)
    } else {
        match byte_offset(value) {
            Ok(n) => Ok(BinaryInsertTarget::Offset(n)),
            Err(m) => Err(m),
        }
    }
}

fn parse_binary_insert_target(value: &[char]) -> (r: Result<BinaryInsertTarget, Error>)
    ensures
        match r {
            Ok(t) => byte_insert_target(value@) == Ok::<BinaryInsertTarget, Seq<char>>(t),
            Err(e) => byte_insert_target(value@) == Err::<BinaryInsertTarget, Seq<char>>(e@),
        },
{
    if is_text(value, "0") {
        return Ok(BinaryInsertTarget::Start);
    }
    if is_text(value, "-1") {
        return Ok(BinaryInsertTarget::End);
    }
    match parse_byte_offset(value) {
        Ok(n) => Ok(BinaryInsertTarget::Offset(n)),
        Err(e) => Err(e),
    }
}

/// An offset and a length, the offset read first.
pub open spec fn byte_span(a: Seq<char>, b: Seq<char>) -> Result<(usize, ByteLen), Seq<char>> {
    match byte_offset(a) {
        Err(m) => Err(m),
        Ok(offset) => match byte_len(b) {
            Err(m) => Err(m),
            Ok(len) => Ok((offset, len)),
        },
    }
}

fn parse_byte_span(a: &[char], b: &[char]) -> (r: Result<(usize, ByteLen), Error>)
    ensures
        match r {
            Ok(p) => byte_span(a@, b@) == Ok::<(usize, ByteLen), Seq<char>>(p),
            Err(e) => byte_span(a@, b@) == Err::<(usize, ByteLen), Seq<char>>(e@),
        },
{
    match parse_byte_offset(a) {
        Err(e) => Err(e),
        Ok(offset) => match parse_byte_len(b) {
            Err(e) => Err(e),
            Ok(len) => Ok((offset, len)),
        },
    }
}

/// Whether a line has the form of a hunk header.
pub open spec fn is_header(line: Seq<char>) -> bool {
    let w = words(line);
    ||| w.len() == 2 && w[0] == "insert"@
    ||| w.len() == 3 && (w[0] == "replace"@ || w[0] == "delete"@)
}

/// The header that a line is, where it has the form of one.
pub open spec fn binary_anchor_of(line: Seq<char>) -> Result<Option<BinaryAnchor>, Seq<char>> {
    let w = words(line);
    if w.len() == 2 && w[0] == "insert"@ {
        match byte_insert_target(w[1]) {
            Ok(target) => Ok(Some(BinaryAnchor::Insert { target })),
            Err(m) => Err(m),
        }
    } else if w.len() == 3 && w[0] == "replace"@ {
        match byte_span(w[1], w[2]) {
            Ok((offset, len)) => Ok(Some(BinaryAnchor::Replace { offset, len })),
            Err(m) => Err(m),
        }
    } else if w.len() == 3 && w[0] == "delete"@ {
        match byte_span(w[1], w[2]) {
            Ok((offset, len)) => Ok(Some(BinaryAnchor::Delete { offset, len })),
            Err(m) => Err(m),
        }
    } else {
        Ok(None)
    }
}

pub fn has_header_form(line: &[char]) -> (r: bool)
    ensures
        r == is_header(line@),
{
    broadcast use lemma_views_index;

    let w = split_words(line);
    let ghost ws = words(line@);
    proof {
        assert(ws == views(w@));
    }
    (w.len() == 2 && is_text(w[0], "insert")) || (w.len() == 3 && (is_text(w[0], "replace")
        || is_text(w[0], "delete")))
}

fn parse_binary_anchor(line: &[char]) -> (r: Result<Option<BinaryAnchor>, Error>)
    ensures
        match r {
            Ok(a) => binary_anchor_of(line@) == Ok::<Option<BinaryAnchor>, Seq<char>>(a),
            Err(e) => binary_anchor_of(line@) == Err::<Option<BinaryAnchor>, Seq<char>>(e@),
        },
{
    broadcast use lemma_views_index;

    let w = split_words(line);
    let ghost ws = words(line@);
    proof {
        assert(ws == views(w@));
    }
    if w.len() == 2 && is_text(w[0], "insert") {
        match parse_binary_insert_target(w[1]) {
            Ok(target) => Ok(Some(BinaryAnchor::Insert { target })),
            Err(e) => Err(e),
        }
    } else if w.len() == 3 && is_text(w[0], "replace") {
        match parse_byte_span(w[1], w[2]) {
            Ok((offset, len)) => Ok(Some(BinaryAnchor::Replace { offset, len })),
            Err(e) => Err(e),
        }
    } else if w.len() == 3 && is_text(w[0], "delete") {
        match parse_byte_span(w[1], w[2]) {
            Ok((offset, len)) => Ok(Some(BinaryAnchor::Delete { offset, len })),
            Err(e) => Err(e),
        }
    } else {
        Ok(None)
    }
}

/// The bytes that a body line writes.
pub open spec fn body_bytes(line: Seq<char>) -> Result<Seq<u8>, Seq<char>> {
    if starts(line, "+"@) {
        hex_bytes(line.skip("+"@.len() as int))
    } else if starts(line, "copy "@) {
        Err("copy body lines are not supported in binary patch mode"@)
    } else {
        Err(
            "unsupported binary patch body line `"@ + line + "`; body lines must start with `+`"@,
        )
    }
}

fn parse_body_bytes(line: &[char]) -> (r: Result<Vec<u8>, Error>)
    ensures
        match r {
            Ok(b) => body_bytes(line@) == Ok::<Seq<u8>, Seq<char>>(b@),
            Err(e) => body_bytes(line@) == Err::<Seq<u8>, Seq<char>>(e@),
        },
{
    match after_prefix(line, "+") {
        Some(hex) => {
            return decode_hex(hex);
        },
        None => {},
    }
    if starts_with(line, "copy ") {
        return Err(Error::of("copy body lines are not supported in binary patch mode"));
    }
    let mut m = owned("unsupported binary patch body line `");
    append_chars(&mut m, line);
    m.append("`; body lines must start with `+`");
    Err(Error::new(m))
}

/// The hunks read so far, with one more line of the patch.
pub open spec fn read_line(hunks: Seq<BinaryHunkView>, raw: Seq<char>) -> Result<
    Seq<BinaryHunkView>,
    Seq<char>,
> {
    let line = strip_crs(raw);
    if trim(line).len() == 0 {
        Ok(hunks)
    } else {
        match binary_anchor_of(line) {
            Err(m) => Err(m),
            Ok(Some(anchor)) => Ok(
                hunks.push(BinaryHunkView { anchor, bytes: seq![], order: hunks.len() as int }),
            ),
            Ok(None) => if hunks.len() == 0 {
                Err(
                    "binary patchText must start with a hunk header such as `replace 0 1`, `delete 0 1`, `insert 0`, or `insert -1`"@,
                )
            } else {
                match body_bytes(line) {
                    Err(m) => Err(m),
                    Ok(b) => {
                        let last = hunks.last();
                        Ok(
                            hunks.drop_last().push(
                                BinaryHunkView {
                                    anchor: last.anchor,
                                    bytes: last.bytes + b,
                                    order: last.order,
                                },
                            ),
                        )
                    },
                }
            },
        }
    }
}

pub open spec fn read_lines(hunks: Seq<BinaryHunkView>, rest: Seq<Seq<char>>) -> Result<
    Seq<BinaryHunkView>,
    Seq<char>,
>
    decreases rest.len(),
{
    if rest.len() == 0 {
        Ok(hunks)
    } else {
        match read_line(hunks, rest[0]) {
            Err(m) => Err(m),
            Ok(h) => read_lines(h, rest.drop_first()),
        }
    }
}

/// What is wrong with the body of a hunk.
pub open spec fn body_fault(hunk: BinaryHunkView) -> Option<Seq<char>> {
    match hunk.anchor {
        BinaryAnchor::Delete { .. } => if hunk.bytes.len() > 0 {
            Some("delete hunks cannot contain body lines"@)
        } else {
            None
        },
        _ => if hunk.bytes.len() == 0 {
            Some("non-delete binary hunks require at least one byte"@)
        } else {
            None
        },
    }
}

pub open spec fn first_body_fault(hunks: Seq<BinaryHunkView>) -> Option<Seq<char>>
    decreases hunks.len(),
{
    if hunks.len() == 0 {
        None
    } else {
        match body_fault(hunks[0]) {
            Some(m) => Some(m),
            None => first_body_fault(hunks.drop_first()),
        }
    }
}

/// The hunks of a patch, or what is wrong with it.
pub open spec fn binary_hunks_of(patch: Seq<char>) -> Result<Seq<BinaryHunkView>, Seq<char>> {
    if has_envelope(patch) {
        Err(
            "old apply_patch envelope format is not supported; pass filePath separately and use binary patchText"@,
        )
    } else {
        match read_lines(seq![], lines_of(patch)) {
            Err(m) => Err(m),
            Ok(hunks) => if hunks.len() == 0 {
                Err("patchText did not contain any hunks"@)
            } else {
                match first_body_fault(hunks) {
                    Some(m) => Err(m),
                    None => Ok(hunks),
                }
            },
        }
    }
}

fn take_line(hunks: &mut Vec<BinaryHunk>, raw: &[char]) -> (r: Result<(), Error>)
    ensures
        match r {
            Ok(_) => read_line(views(old(hunks)@), raw@) == Ok::<Seq<BinaryHunkView>, Seq<char>>(
                views(final(hunks)@),
            ),
            Err(e) => read_line(views(old(hunks)@), raw@) == Err::<
                Seq<BinaryHunkView>,
                Seq<char>,
            >(e@),
        },
{
    broadcast use lemma_views_push;

    let line = without_crs(raw);
    if is_blank(line) {
        return Ok(());
    }
    match parse_binary_anchor(line) {
        Err(e) => {
            return Err(e);
        },
        Ok(Some(anchor)) => {
            let order: usize = hunks.len();
            let bytes: Vec<u8> = Vec::new();
            hunks.push(BinaryHunk { anchor, bytes, order });
            return Ok(());
        },
        Ok(None) => {},
    }
    let ghost before = hunks@;
    match hunks.pop() {
        None => Err(
            Error::of(
                "binary patchText must start with a hunk header such as `replace 0 1`, `delete 0 1`, `insert 0`, or `insert -1`",
            ),
        ),
        Some(mut last) => {
            proof {
                assert(views(before).drop_last() =~= views(hunks@));
                assert(views(before).last() == last@);
            }
            match parse_body_bytes(line) {
                Err(e) => Err(e),
                Ok(mut b) => {
                    last.bytes.append(&mut b);
                    hunks.push(last);
                    Ok(())
                },
            }
        },
    }
}

fn check_bodies(hunks: &Vec<BinaryHunk>) -> (r: Result<(), Error>)
    ensures
        match r {
            Ok(_) => first_body_fault(views(hunks@)) is None,
            Err(e) => first_body_fault(views(hunks@)) == Some(e@),
        },
{
    let ghost all = views(hunks@);
    let mut i: usize = 0;
    proof {
        assert(all.skip(0) =~= all);
    }
    while i < hunks.len()
        invariant
            i <= hunks@.len(),
            all == views(hunks@),
            first_body_fault(all) == first_body_fault(all.skip(i as int)),
        decreases hunks@.len() - i,
    {
        proof {
            assert(all.skip(i as int)[0] == hunks@[i as int]@);
            assert(all.skip(i as int).drop_first() =~= all.skip(i + 1));
        }
        let hunk = &hunks[i];
        match hunk.anchor {
            BinaryAnchor::Delete { .. } => {
                if hunk.bytes.len() > 0 {
                    return Err(Error::of("delete hunks cannot contain body lines"));
                }
            },
            _ => {
                if hunk.bytes.len() == 0 {
                    return Err(Error::of("non-delete binary hunks require at least one byte"));
                }
            },
        }
        i = i + 1;
    }
    Ok(())
}

/// Reads the hunks of a patch.
pub fn parse_binary_patch(patch_text: &str) -> (r: Result<Vec<BinaryHunk>, Error>)
    ensures
        match r {
            Ok(hunks) => binary_hunks_of(patch_text@) == Ok::<Seq<BinaryHunkView>, Seq<char>>(
                views(hunks@),
            ),
            Err(e) => binary_hunks_of(patch_text@) == Err::<Seq<BinaryHunkView>, Seq<char>>(e@),
        },
{
    let text = chars_of(patch_text);
    if opens_envelope(text.as_slice()) {
        return Err(
            Error::of(
                "old apply_patch envelope format is not supported; pass filePath separately and use binary patchText",
            ),
        );
    }
    let all = split_lines(text.as_slice());
    let ghost rows = views(all@);
    let mut hunks: Vec<BinaryHunk> = Vec::new();
    let mut i: usize = 0;
    proof {
        assert(views(hunks@) =~= seq![]);
        assert(rows.skip(0) =~= rows);
    }
    while i < all.len()
        invariant
            i <= all@.len(),
            rows == views(all@),
            rows == lines_of(patch_text@),
            !has_envelope(patch_text@),
            read_lines(seq![], rows) == read_lines(views(hunks@), rows.skip(i as int)),
        decreases all@.len() - i,
    {
        proof {
            assert(rows.skip(i as int)[0] == all@[i as int]@);
            assert(rows.skip(i as int).drop_first() =~= rows.skip(i + 1));
        }
        match take_line(&mut hunks, all[i]) {
            Ok(_) => {},
            Err(e) => {
                return Err(e);
            },
        }
        i = i + 1;
    }
    if hunks.len() == 0 {
        return Err(Error::of("patchText did not contain any hunks"));
    }
    match check_bodies(&hunks) {
        Err(e) => Err(e),
        Ok(_) => Ok(hunks),
    }
}

// ---------------------------------------------------------------------------
// Applying hunks
// ---------------------------------------------------------------------------
/// The sum of two numbers, kept within the machine's range.
pub open spec fn capped_sum(a: int, b: int) -> int {
    if a + b > usize::MAX {
        usize::MAX as int
    } else {
        a + b
    }
}

pub open spec fn missing_bytes(offset: int, len: int, total: int) -> Seq<char> {
    "byte range "@ + dec(offset as nat) + ".."@ + dec(capped_sum(offset, len) as nat)
        + " is out of range for this file ("@ + dec(total as nat) + " bytes)"@
}

pub fn missing_bytes_error(offset: usize, len: usize, total: usize) -> (r: Error)
    ensures
        r@ == missing_bytes(offset as int, len as int, total as int),
{
    let end: usize = if len > usize::MAX - offset {
        usize::MAX
    } else {
        offset + len
    };
    let mut m = owned("byte range ");
    append_dec(&mut m, offset as u64);
    m.append("..");
    append_dec(&mut m, end as u64);
    m.append(" is out of range for this file (");
    append_dec(&mut m, total as u64);
    m.append(" bytes)");
    Error::new(m)
}

/// Where the bytes that a hunk is about end.
pub open spec fn byte_range_end(offset: int, len: ByteLen, total: int) -> Result<int, Seq<char>> {
    if offset >= total {
        Err(
            "byte offset "@ + dec(offset as nat) + " is out of range for this file ("@ + dec(
                total as nat,
            ) + " bytes)"@,
        )
    } else {
        match len {
            ByteLen::Rest => Ok(total),
            ByteLen::Count(n) => if offset + n <= total {
                Ok(offset + n)
            } else {
                Err(missing_bytes(offset, n as int, total))
            },
        }
    }
}

fn find_byte_range_end(offset: usize, len: ByteLen, total: usize) -> (r: Result<usize, Error>)
    ensures
        match r {
            Ok(end) => byte_range_end(offset as int, len, total as int) == Ok::<int, Seq<char>>(
                end as int,
            ),
            Err(e) => byte_range_end(offset as int, len, total as int) == Err::<int, Seq<char>>(e@),
        },
{
    if offset >= total {
        let mut m = owned("byte offset ");
        append_dec(&mut m, offset as u64);
        m.append(" is out of range for this file (");
        append_dec(&mut m, total as u64);
        m.append(" bytes)");
        return Err(Error::new(m));
    }
    match len {
        ByteLen::Rest => Ok(total),
        ByteLen::Count(n) => if n <= total - offset {
            Ok(offset + n)
        } else {
            Err(missing_bytes_error(offset, n, total))
        },
    }
}

/// The positions that an anchor stands for in a file of `total` bytes.
pub open spec fn binary_anchor_span(anchor: BinaryAnchor, total: int) -> Result<
    (int, int),
    Seq<char>,
> {
    match anchor {
        BinaryAnchor::Replace { offset, len } => match byte_range_end(offset as int, len, total) {
            Ok(end) => Ok((offset as int, end)),
            Err(m) => Err(m),
        },
        BinaryAnchor::Delete { offset, len } => match byte_range_end(offset as int, len, total) {
            Ok(end) => Ok((offset as int, end)),
            Err(m) => Err(m),
        },
        BinaryAnchor::Insert { target } => match target {
            BinaryInsertTarget::Start => Ok((0, 0)),
            BinaryInsertTarget::End => Ok((total, total)),
            BinaryInsertTarget::Offset(offset) => if offset >= total {
                Err(
                    "insert offset "@ + dec(offset as nat) + " is out of range for this file ("@
                        + dec(total as nat)
                        + " bytes); use insert 0 for the start or insert -1 for the end"@,
                )
            } else {
                Ok((offset as int, offset as int))
            },
        },
    }
}

/// The edit that a hunk makes to a file of `total` bytes.
pub open spec fn binary_hunk_edit(h: BinaryHunkView, total: int) -> Result<
    EditView<u8>,
    Seq<char>,
> {
    match binary_anchor_span(h.anchor, total) {
        Err(m) => Err(m),
        Ok((start, end)) => Ok(EditView { start, end, replacement: h.bytes, order: h.order }),
    }
}

pub fn hunk_to_binary_operation(hunk: &BinaryHunk, total: usize) -> (r: Result<Edit<u8>, Error>)
    ensures
        match r {
            Ok(op) => binary_hunk_edit(hunk@, total as int) == Ok::<EditView<u8>, Seq<char>>(op@)
                && op.start <= op.end <= total,
            Err(e) => binary_hunk_edit(hunk@, total as int) == Err::<EditView<u8>, Seq<char>>(e@),
        },
{
    let (start, end): (usize, usize) = match hunk.anchor {
        BinaryAnchor::Replace { offset, len } => match find_byte_range_end(offset, len, total) {
            Ok(end) => (offset, end),
            Err(e) => {
                return Err(e);
            },
        },
        BinaryAnchor::Delete { offset, len } => match find_byte_range_end(offset, len, total) {
            Ok(end) => (offset, end),
            Err(e) => {
                return Err(e);
            },
        },
        BinaryAnchor::Insert { target } => match target {
            BinaryInsertTarget::Start => (0, 0),
            BinaryInsertTarget::End => (total, total),
            BinaryInsertTarget::Offset(offset) => {
                if offset >= total {
                    let mut m = owned("insert offset ");
                    append_dec(&mut m, offset as u64);
                    m.append(" is out of range for this file (");
                    append_dec(&mut m, total as u64);
                    m.append(" bytes); use insert 0 for the start or insert -1 for the end");
                    return Err(Error::new(m));
                }
                (offset, offset)
            },
        },
    };
    let replacement = crate::bytes::copied(hunk.bytes.as_slice());
    proof {
        assert(views(replacement@) =~= hunk.bytes@);
    }
    Ok(Edit { start, end, replacement, order: hunk.order })
}

/// The edits of all hunks, or the first that fails.
pub open spec fn binary_hunk_edits(hunks: Seq<BinaryHunkView>, total: int) -> Result<
    Seq<EditView<u8>>,
    Seq<char>,
>
    decreases hunks.len(),
{
    if hunks.len() == 0 {
        Ok(seq![])
    } else {
        match binary_hunk_edits(hunks.drop_last(), total) {
            Err(m) => Err(m),
            Ok(edits) => match binary_hunk_edit(hunks.last(), total) {
                Err(m) => Err(m),
                Ok(edit) => Ok(edits.push(edit)),
            },
        }
    }
}

proof fn lemma_binary_edits_fail(hunks: Seq<BinaryHunkView>, total: int, k: int)
    requires
        0 <= k <= hunks.len(),
        binary_hunk_edits(hunks.take(k), total) is Err,
    ensures
        binary_hunk_edits(hunks, total) == binary_hunk_edits(hunks.take(k), total),
    decreases hunks.len(),
{
    if k == hunks.len() {
        assert(hunks.take(k) =~= hunks);
    } else {
        assert(hunks.drop_last().take(k) =~= hunks.take(k));
        lemma_binary_edits_fail(hunks.drop_last(), total, k);
    }
}

/// The edits of hunks lie within the file.
pub proof fn lemma_binary_hunk_edits_within(hunks: Seq<BinaryHunkView>, total: int)
    requires
        total >= 0,
        binary_hunk_edits(hunks, total) is Ok,
    ensures
        within(binary_hunk_edits(hunks, total)->Ok_0, total),
    decreases hunks.len(),
{
    if hunks.len() > 0 {
        lemma_binary_hunk_edits_within(hunks.drop_last(), total);
    }
}

/// Bytes with hunks applied, or what stands in the way.
pub open spec fn patched_bytes(bytes: Seq<u8>, hunks: Seq<BinaryHunkView>) -> Result<
    Seq<u8>,
    Seq<char>,
> {
    match binary_hunk_edits(hunks, bytes.len() as int) {
        Err(m) => Err(m),
        Ok(edits) => match edited(bytes, edits) {
            None => Err("binary patch hunks overlap or target already replaced bytes"@),
            Some(out) => Ok(out),
        },
    }
}

/// The edits that hunks make to a file of `total` bytes.
pub fn hunks_to_operations(hunks: &[BinaryHunk], total: usize) -> (r: Result<Vec<Edit<u8>>, Error>)
    ensures
        match r {
            Ok(ops) => binary_hunk_edits(views(hunks@), total as int) == Ok::<
                Seq<EditView<u8>>,
                Seq<char>,
            >(views(ops@)) && within(views(ops@), total as int),
            Err(e) => binary_hunk_edits(views(hunks@), total as int) == Err::<
                Seq<EditView<u8>>,
                Seq<char>,
            >(e@),
        },
{
    broadcast use lemma_views_push;

    let ghost all = views(hunks@);
    let mut ops: Vec<Edit<u8>> = Vec::new();
    let mut i: usize = 0;
    proof {
        assert(all.take(0) =~= seq![]);
        assert(views(ops@) =~= seq![]);
    }
    while i < hunks.len()
        invariant
            i <= hunks@.len(),
            all == views(hunks@),
            binary_hunk_edits(all.take(i as int), total as int) == Ok::<
                Seq<EditView<u8>>,
                Seq<char>,
            >(views(ops@)),
            within(views(ops@), total as int),
        decreases hunks@.len() - i,
    {
        let ghost now = all.take(i + 1);
        proof {
            assert(now.drop_last() =~= all.take(i as int));
            assert(now.last() == hunks@[i as int]@);
        }
        match hunk_to_binary_operation(&hunks[i], total) {
            Ok(op) => {
                let ghost before = ops@;
                ops.push(op);
                proof {
                    assert(views(ops@) == views(before).push(op@));
                }
            },
            Err(e) => {
                proof {
                    lemma_binary_edits_fail(all, total as int, i + 1);
                }
                return Err(e);
            },
        }
        i = i + 1;
    }
    proof {
        assert(all.take(all.len() as int) =~= all);
    }
    Ok(ops)
}

/// Applies hunks to bytes. All offsets are those of the bytes as given.
pub fn apply_binary_hunks(bytes: &[u8], hunks: &[BinaryHunk]) -> (r: Result<Vec<u8>, Error>)
    ensures
        match r {
            Ok(out) => patched_bytes(bytes@, views(hunks@)) == Ok::<Seq<u8>, Seq<char>>(out@),
            Err(e) => patched_bytes(bytes@, views(hunks@)) == Err::<Seq<u8>, Seq<char>>(e@),
        },
{
    let ops = match hunks_to_operations(hunks, bytes.len()) {
        Ok(ops) => ops,
        Err(e) => {
            return Err(e);
        },
    };
    proof {
        assert(views(bytes@) =~= bytes@);
    }
    match edit_bytes(bytes, ops) {
        Some(out) => {
            proof {
                assert(views(out@) =~= out@);
            }
            Ok(out)
        },
        None => Err(Error::of("binary patch hunks overlap or target already replaced bytes")),
    }
}

proof fn lemma_binary_hunk_edits_are(hunks: Seq<BinaryHunkView>, total: int)
    ensures
        binary_hunk_edits(hunks, total) is Ok <==> forall|i: int|
            0 <= i < hunks.len() ==> binary_hunk_edit(#[trigger] hunks[i], total) is Ok,
        binary_hunk_edits(hunks, total) is Ok ==> binary_hunk_edits(hunks, total)->Ok_0 == hunks.map_values(
            |h: BinaryHunkView| binary_hunk_edit(h, total)->Ok_0,
        ),
    decreases hunks.len(),
{
    let f = |h: BinaryHunkView| binary_hunk_edit(h, total)->Ok_0;
    if hunks.len() == 0 {
        assert(binary_hunk_edits(hunks, total)->Ok_0 =~= hunks.map_values(f));
    } else {
        let most = hunks.drop_last();
        lemma_binary_hunk_edits_are(most, total);
        if binary_hunk_edits(hunks, total) is Ok {
            assert forall|i: int| 0 <= i < hunks.len() implies binary_hunk_edit(
                #[trigger] hunks[i],
                total,
            ) is Ok by {
                if i < most.len() {
                    assert(most[i] == hunks[i]);
                }
            }
            assert(binary_hunk_edits(hunks, total)->Ok_0 =~= hunks.map_values(f));
        }
        if forall|i: int| 0 <= i < hunks.len() ==> binary_hunk_edit(#[trigger] hunks[i], total) is Ok {
            assert forall|i: int| 0 <= i < most.len() implies binary_hunk_edit(
                #[trigger] most[i],
                total,
            ) is Ok by {
                assert(most[i] == hunks[i]);
            }
            assert(binary_hunk_edit(hunks[hunks.len() - 1], total) is Ok);
        }
    }
}

/// Offsets always mean the file as it was, so the sequence in which hunks are listed
/// does not matter, as long as each keeps its order: the outcome is the same, and
/// there is one in the same cases.
pub proof fn lemma_patched_bytes_in_any_listing(bytes: Seq<u8>, hunks: Seq<BinaryHunkView>, listed: Seq<BinaryHunkView>)
    requires
        hunks.to_multiset() == listed.to_multiset(),
        forall|i: int, j: int|
            0 <= i < j < hunks.len() ==> (#[trigger] hunks[i]).order != (#[trigger] hunks[j]).order,
    ensures
        patched_bytes(bytes, hunks) is Ok <==> patched_bytes(bytes, listed) is Ok,
        patched_bytes(bytes, hunks) is Ok ==> patched_bytes(bytes, hunks) == patched_bytes(bytes, listed),
{
    broadcast use vstd::seq_lib::group_to_multiset_ensures;

    let total = bytes.len() as int;
    let f = |h: BinaryHunkView| binary_hunk_edit(h, total)->Ok_0;
    lemma_binary_hunk_edits_are(hunks, total);
    lemma_binary_hunk_edits_are(listed, total);
    if binary_hunk_edits(hunks, total) is Ok {
        assert forall|i: int| 0 <= i < listed.len() implies binary_hunk_edit(#[trigger] listed[i], total) is Ok by {
            assert(listed.contains(listed[i]));
            assert(listed.to_multiset().count(listed[i]) > 0);
            assert(hunks.contains(listed[i]));
        }
        let edits = binary_hunk_edits(hunks, total)->Ok_0;
        lemma_map_permutes(hunks, listed, f);
        assert(told_apart(edits)) by {
            assert forall|a: EditView<u8>, b: EditView<u8>|
                #![trigger edits.contains(a), edits.contains(b)]
                edits.contains(a) && edits.contains(b) && a.order == b.order implies a == b by {
                let i = choose|i: int| 0 <= i < edits.len() && edits[i] == a;
                let j = choose|j: int| 0 <= j < edits.len() && edits[j] == b;
                assert(binary_hunk_edit(hunks[i], total) is Ok && binary_hunk_edit(hunks[j], total) is Ok);
                assert(a.order == hunks[i].order && b.order == hunks[j].order);
            }
        }
        lemma_listing_does_not_matter(edits, binary_hunk_edits(listed, total)->Ok_0);
    } else {
        let i = choose|i: int| 0 <= i < hunks.len() && !(binary_hunk_edit(#[trigger] hunks[i], total) is Ok);
        assert(hunks.contains(hunks[i]));
        assert(hunks.to_multiset().count(hunks[i]) > 0);
        assert(listed.contains(hunks[i]));
        let j = choose|j: int| 0 <= j < listed.len() && listed[j] == hunks[i];
        assert(!(binary_hunk_edit(listed[j], total) is Ok));
    }
}

} // verus!
