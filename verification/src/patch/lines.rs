//! Hunks of lines: `replace A B`, `delete A B` and `insert N`, each followed by
//! `+text` and `copy A B` lines. Line numbers count from one.

use crate::edits::laws::{lemma_listing_does_not_matter, lemma_map_permutes, told_apart};
use crate::edits::{copy_lines, edit_lines, edited, within, Edit, EditView};
use crate::error::Error;
use crate::patch::{has_envelope, opens_envelope};
use crate::shape::{has_final_newline, join_text_lines, lines_text, split_text_lines, text_lines};
use crate::text::number::{append_dec, dec, parse_unsigned, parse_usize};
use crate::text::split::{
    after_prefix, is_blank, is_text, lines as lines_of, split_lines, split_words, starts, strip_crs,
    trim, trimmed, without_crs, words,
};
use crate::text::{
    append_chars, chars_of, lemma_views_index, lemma_views_push, owned, string_of, views,
};
use vstd::prelude::*;

verus! {

/// Where new lines go.
#[derive(Clone, Copy, Debug, PartialEq, Eq, Structural)]
pub enum InsertTarget {
    Start,
    After(usize),
    End,
}

/// The lines of the file that a hunk is about.
#[derive(Clone, Copy, Debug, PartialEq, Eq, Structural)]
pub enum Anchor {
    Replace { start: usize, end: usize },
    Delete { start: usize, end: usize },
    Insert { target: InsertTarget },
}

/// One line of a hunk's body: a new line, or lines of the file as it was.
#[derive(Debug)]
pub enum BodyLine {
    Literal(String),
    Copy { start: usize, end: usize },
}

#[verifier::ext_equal]
pub enum BodyLineView {
    Literal(Seq<char>),
    Copy { start: usize, end: usize },
}

impl View for BodyLine {
    type V = BodyLineView;

    open spec fn view(&self) -> BodyLineView {
        match self {
            BodyLine::Literal(text) => BodyLineView::Literal(text@),
            BodyLine::Copy { start, end } => BodyLineView::Copy { start: *start, end: *end },
        }
    }
}

#[derive(Debug)]
pub struct Hunk {
    pub anchor: Anchor,
    pub body: Vec<BodyLine>,
    pub order: usize,
}

#[verifier::ext_equal]
pub struct HunkView {
    pub anchor: Anchor,
    pub body: Seq<BodyLineView>,
    pub order: int,
}

impl View for Hunk {
    type V = HunkView;

    open spec fn view(&self) -> HunkView {
        HunkView { anchor: self.anchor, body: views(self.body@), order: self.order as int }
    }
}

// ---------------------------------------------------------------------------
// Reading a patch
// ---------------------------------------------------------------------------
pub open spec fn line_number(value: Seq<char>) -> Result<usize, Seq<char>> {
    match parse_unsigned(value, usize::MAX as nat) {
        None => Err("invalid line number `"@ + value + "`"@),
        Some(n) => if n == 0 {
            Err("line numbers are 1-based"@)
        } else {
            Ok(n as usize)
        },
    }
}

fn parse_line_number(value: &[char]) -> (r: Result<usize, Error>)
    ensures
        match r {
            Ok(n) => line_number(value@) == Ok::<usize, Seq<char>>(n),
            Err(e) => line_number(value@) == Err::<usize, Seq<char>>(e@),
        },
{
    match parse_usize(value) {
        None => {
            let mut m = owned("invalid line number `");
            append_chars(&mut m, value);
            m.append("`");
            Err(Error::new(m))
        },
        Some(n) => if n == 0 {
            Err(Error::of("line numbers are 1-based"))
        } else {
            Ok(n)
        },
    }
}

pub open spec fn insert_target(value: Seq<char>) -> Result<InsertTarget, Seq<char>> {
    if value == "0"@ {
        Ok(InsertTarget::Start)
    } else if value == "-1"@ {
        Ok(InsertTarget::End)
    } else {
        match line_number(value) {
            Ok(n) => Ok(InsertTarget::After(n)),
            Err(m) => Err(m),
        }
    }
}

fn parse_insert_target(value: &[char]) -> (r: Result<InsertTarget, Error>)
    ensures
        match r {
            Ok(t) => insert_target(value@) == Ok::<InsertTarget, Seq<char>>(t),
            Err(e) => insert_target(value@) == Err::<InsertTarget, Seq<char>>(e@),
        },
{
    if is_text(value, "0") {
        return Ok(InsertTarget::Start);
    }
    if is_text(value, "-1") {
        return Ok(InsertTarget::End);
    }
    match parse_line_number(value) {
        Ok(n) => Ok(InsertTarget::After(n)),
        Err(e) => Err(e),
    }
}

/// Two line numbers, the first read first.
pub open spec fn line_pair(a: Seq<char>, b: Seq<char>) -> Result<(usize, usize), Seq<char>> {
    match line_number(a) {
        Err(m) => Err(m),
        Ok(start) => match line_number(b) {
            Err(m) => Err(m),
            Ok(end) => Ok((start, end)),
        },
    }
}

fn parse_line_pair(a: &[char], b: &[char]) -> (r: Result<(usize, usize), Error>)
    ensures
        match r {
            Ok(p) => line_pair(a@, b@) == Ok::<(usize, usize), Seq<char>>(p),
            Err(e) => line_pair(a@, b@) == Err::<(usize, usize), Seq<char>>(e@),
        },
{
    match parse_line_number(a) {
        Err(e) => Err(e),
        Ok(start) => match parse_line_number(b) {
            Err(e) => Err(e),
            Ok(end) => Ok((start, end)),
        },
    }
}

/// The header that a line is, where it has the form of one.
pub open spec fn anchor_of(line: Seq<char>) -> Result<Option<Anchor>, Seq<char>> {
    let w = words(line);
    if w.len() == 2 && w[0] == "insert"@ {
        match insert_target(w[1]) {
            Ok(target) => Ok(Some(Anchor::Insert { target })),
            Err(m) => Err(m),
        }
    } else if w.len() == 3 && w[0] == "replace"@ {
        match line_pair(w[1], w[2]) {
            Ok((start, end)) => Ok(Some(Anchor::Replace { start, end })),
            Err(m) => Err(m),
        }
    } else if w.len() == 3 && w[0] == "delete"@ {
        match line_pair(w[1], w[2]) {
            Ok((start, end)) => Ok(Some(Anchor::Delete { start, end })),
            Err(m) => Err(m),
        }
    } else {
        Ok(None)
    }
}

fn parse_anchor(line: &[char]) -> (r: Result<Option<Anchor>, Error>)
    ensures
        match r {
            Ok(a) => anchor_of(line@) == Ok::<Option<Anchor>, Seq<char>>(a),
            Err(e) => anchor_of(line@) == Err::<Option<Anchor>, Seq<char>>(e@),
        },
{
    broadcast use lemma_views_index;

    let w = split_words(line);
    let ghost ws = words(line@);
    proof {
        assert(ws == views(w@));
    }
    if w.len() == 2 && is_text(w[0], "insert") {
        match parse_insert_target(w[1]) {
            Ok(target) => Ok(Some(Anchor::Insert { target })),
            Err(e) => Err(e),
        }
    } else if w.len() == 3 && is_text(w[0], "replace") {
        match parse_line_pair(w[1], w[2]) {
            Ok((start, end)) => Ok(Some(Anchor::Replace { start, end })),
            Err(e) => Err(e),
        }
    } else if w.len() == 3 && is_text(w[0], "delete") {
        match parse_line_pair(w[1], w[2]) {
            Ok((start, end)) => Ok(Some(Anchor::Delete { start, end })),
            Err(e) => Err(e),
        }
    } else {
        Ok(None)
    }
}

pub open spec fn copy_range(value: Seq<char>) -> Result<(usize, usize), Seq<char>> {
    let w = words(value);
    if w.len() != 2 {
        Err("copy body lines must be `copy A B`"@)
    } else {
        match line_pair(trim(w[0]), trim(w[1])) {
            Err(m) => Err(m),
            Ok((start, end)) => if start > end {
                Err("copy range start must be <= end: copy "@ + value)
            } else {
                Ok((start, end))
            },
        }
    }
}

fn parse_copy_range(value: &[char]) -> (r: Result<(usize, usize), Error>)
    ensures
        match r {
            Ok(p) => copy_range(value@) == Ok::<(usize, usize), Seq<char>>(p),
            Err(e) => copy_range(value@) == Err::<(usize, usize), Seq<char>>(e@),
        },
{
    broadcast use lemma_views_index;

    let w = split_words(value);
    let ghost ws = words(value@);
    proof {
        assert(ws == views(w@));
    }
    if w.len() != 2 {
        return Err(Error::of("copy body lines must be `copy A B`"));
    }
    match parse_line_pair(trimmed(w[0]), trimmed(w[1])) {
        Err(e) => Err(e),
        Ok((start, end)) => if start > end {
            let mut m = owned("copy range start must be <= end: copy ");
            append_chars(&mut m, value);
            Err(Error::new(m))
        } else {
            Ok((start, end))
        },
    }
}

/// The body line that a line of the patch is.
pub open spec fn body_line(line: Seq<char>) -> Result<BodyLineView, Seq<char>> {
    if starts(line, "+"@) {
        Ok(BodyLineView::Literal(line.skip("+"@.len() as int)))
    } else if starts(line, "copy "@) {
        match copy_range(trim(line.skip("copy "@.len() as int))) {
            Ok((start, end)) => Ok(BodyLineView::Copy { start, end }),
            Err(m) => Err(m),
        }
    } else {
        Err(
            "unsupported patch body line `"@ + line
                + "`; body lines must start with `+` or `copy `"@,
        )
    }
}

fn parse_body_line(line: &[char]) -> (r: Result<BodyLine, Error>)
    ensures
        match r {
            Ok(b) => body_line(line@) == Ok::<BodyLineView, Seq<char>>(b@),
            Err(e) => body_line(line@) == Err::<BodyLineView, Seq<char>>(e@),
        },
{
    match after_prefix(line, "+") {
        Some(text) => {
            return Ok(BodyLine::Literal(string_of(text)));
        },
        None => {},
    }
    match after_prefix(line, "copy ") {
        Some(range) => {
            return match parse_copy_range(trimmed(range)) {
                Ok((start, end)) => Ok(BodyLine::Copy { start, end }),
                Err(e) => Err(e),
            };
        },
        None => {},
    }
    let mut m = owned("unsupported patch body line `");
    append_chars(&mut m, line);
    m.append("`; body lines must start with `+` or `copy `");
    Err(Error::new(m))
}

/// The hunks read so far, with one more line of the patch.
pub open spec fn read_line(hunks: Seq<HunkView>, raw: Seq<char>) -> Result<
    Seq<HunkView>,
    Seq<char>,
> {
    let line = strip_crs(raw);
    if trim(line).len() == 0 {
        Ok(hunks)
    } else {
        match anchor_of(line) {
            Err(m) => Err(m),
            Ok(Some(anchor)) => Ok(
                hunks.push(HunkView { anchor, body: seq![], order: hunks.len() as int }),
            ),
            Ok(None) => if hunks.len() == 0 {
                Err(
                    "patchText must start with a hunk header such as `replace 1 1`, `delete 1 1`, `insert 1`, or `insert -1`"@,
                )
            } else {
                match body_line(line) {
                    Err(m) => Err(m),
                    Ok(b) => {
                        let last = hunks.last();
                        Ok(
                            hunks.drop_last().push(
                                HunkView {
                                    anchor: last.anchor,
                                    body: last.body.push(b),
                                    order: last.order,
                                },
                            ),
                        )
                    },
                }
            },
        }
    }
}

pub open spec fn read_lines(hunks: Seq<HunkView>, rest: Seq<Seq<char>>) -> Result<
    Seq<HunkView>,
    Seq<char>,
>
    decreases rest.len(),
{
    if rest.len() == 0 {
        Ok(hunks)
    } else {
        match read_line(hunks, rest[0]) {
            Err(m) => Err(m),
            Ok(h) => read_lines(h, rest.drop_first()),
        }
    }
}

/// What is wrong with the body of a hunk.
pub open spec fn body_fault(hunk: HunkView) -> Option<Seq<char>> {
    match hunk.anchor {
        Anchor::Delete { .. } => if hunk.body.len() > 0 {
            Some("delete hunks cannot contain body lines"@)
        } else {
            None
        },
        _ => if hunk.body.len() == 0 {
            Some("non-delete hunks require at least one body line"@)
        } else {
            None
        },
    }
}

pub open spec fn first_body_fault(hunks: Seq<HunkView>) -> Option<Seq<char>>
    decreases hunks.len(),
{
    if hunks.len() == 0 {
        None
    } else {
        match body_fault(hunks[0]) {
            Some(m) => Some(m),
            None => first_body_fault(hunks.drop_first()),
        }
    }
}

/// The hunks of a patch, or what is wrong with it.
pub open spec fn hunks_of(patch: Seq<char>) -> Result<Seq<HunkView>, Seq<char>> {
    if has_envelope(patch) {
        Err(
            "old apply_patch envelope format is not supported; pass filePath separately and use line-number patchText"@,
        )
    } else {
        match read_lines(seq![], lines_of(patch)) {
            Err(m) => Err(m),
            Ok(hunks) => if hunks.len() == 0 {
                Err("patchText did not contain any hunks"@)
            } else {
                match first_body_fault(hunks) {
                    Some(m) => Err(m),
                    None => Ok(hunks),
                }
            },
        }
    }
}

fn take_line(hunks: &mut Vec<Hunk>, raw: &[char]) -> (r: Result<(), Error>)
    ensures
        match r {
            Ok(_) => read_line(views(old(hunks)@), raw@) == Ok::<Seq<HunkView>, Seq<char>>(
                views(final(hunks)@),
            ),
            Err(e) => read_line(views(old(hunks)@), raw@) == Err::<Seq<HunkView>, Seq<char>>(e@),
        },
{
    broadcast use lemma_views_push;

    let line = without_crs(raw);
    if is_blank(line) {
        return Ok(());
    }
    match parse_anchor(line) {
        Err(e) => {
            return Err(e);
        },
        Ok(Some(anchor)) => {
            let order: usize = hunks.len();
            let body: Vec<BodyLine> = Vec::new();
            proof {
                assert(views(body@) =~= seq![]);
            }
            hunks.push(Hunk { anchor, body, order });
            return Ok(());
        },
        Ok(None) => {},
    }
    let ghost before = hunks@;
    match hunks.pop() {
        None => Err(
            Error::of(
                "patchText must start with a hunk header such as `replace 1 1`, `delete 1 1`, `insert 1`, or `insert -1`",
            ),
        ),
        Some(mut last) => {
            proof {
                assert(views(before).drop_last() =~= views(hunks@));
                assert(views(before).last() == last@);
            }
            match parse_body_line(line) {
                Err(e) => Err(e),
                Ok(b) => {
                    last.body.push(b);
                    hunks.push(last);
                    Ok(())
                },
            }
        },
    }
}

fn check_bodies(hunks: &Vec<Hunk>) -> (r: Result<(), Error>)
    ensures
        match r {
            Ok(_) => first_body_fault(views(hunks@)) is None,
            Err(e) => first_body_fault(views(hunks@)) == Some(e@),
        },
{
    let ghost all = views(hunks@);
    let mut i: usize = 0;
    proof {
        assert(all.skip(0) =~= all);
    }
    while i < hunks.len()
        invariant
            i <= hunks@.len(),
            all == views(hunks@),
            first_body_fault(all) == first_body_fault(all.skip(i as int)),
        decreases hunks@.len() - i,
    {
        proof {
            assert(all.skip(i as int)[0] == hunks@[i as int]@);
            assert(all.skip(i as int).drop_first() =~= all.skip(i + 1));
        }
        let hunk = &hunks[i];
        match hunk.anchor {
            Anchor::Delete { .. } => {
                if hunk.body.len() > 0 {
                    return Err(Error::of("delete hunks cannot contain body lines"));
                }
            },
            _ => {
                if hunk.body.len() == 0 {
                    return Err(Error::of("non-delete hunks require at least one body line"));
                }
            },
        }
        i = i + 1;
    }
    Ok(())
}

/// Reads the hunks of a patch.
pub fn parse_line_patch(patch_text: &str) -> (r: Result<Vec<Hunk>, Error>)
    ensures
        match r {
            Ok(hunks) => hunks_of(patch_text@) == Ok::<Seq<HunkView>, Seq<char>>(views(hunks@))
                && hunks_ok(views(hunks@)),
            Err(e) => hunks_of(patch_text@) == Err::<Seq<HunkView>, Seq<char>>(e@),
        },
{
    let text = chars_of(patch_text);
    if opens_envelope(text.as_slice()) {
        return Err(
            Error::of(
                "old apply_patch envelope format is not supported; pass filePath separately and use line-number patchText",
            ),
        );
    }
    let all = split_lines(text.as_slice());
    let ghost rows = views(all@);
    let mut hunks: Vec<Hunk> = Vec::new();
    let mut i: usize = 0;
    proof {
        assert(views(hunks@) =~= seq![]);
        assert(rows.skip(0) =~= rows);
    }
    while i < all.len()
        invariant
            i <= all@.len(),
            rows == views(all@),
            rows == lines_of(patch_text@),
            !has_envelope(patch_text@),
            read_lines(seq![], rows) == read_lines(views(hunks@), rows.skip(i as int)),
        decreases all@.len() - i,
    {
        proof {
            assert(rows.skip(i as int)[0] == all@[i as int]@);
            assert(rows.skip(i as int).drop_first() =~= rows.skip(i + 1));
        }
        match take_line(&mut hunks, all[i]) {
            Ok(_) => {},
            Err(e) => {
                return Err(e);
            },
        }
        i = i + 1;
    }
    if hunks.len() == 0 {
        return Err(Error::of("patchText did not contain any hunks"));
    }
    match check_bodies(&hunks) {
        Err(e) => Err(e),
        Ok(_) => {
            proof {
                lemma_hunks_of_ok(patch_text@);
            }
            Ok(hunks)
        },
    }
}

// ---------------------------------------------------------------------------
// What every hunk that was read keeps
// ---------------------------------------------------------------------------
pub open spec fn body_line_ok(b: BodyLineView) -> bool {
    match b {
        BodyLineView::Literal(_) => true,
        BodyLineView::Copy { start, end } => 1 <= start <= end,
    }
}

/// The line numbers of a hunk count from one, and what it copies is a range.
pub open spec fn hunk_ok(h: HunkView) -> bool {
    &&& match h.anchor {
        Anchor::Replace { start, end } => 1 <= start && 1 <= end,
        Anchor::Delete { start, end } => 1 <= start && 1 <= end,
        Anchor::Insert { .. } => true,
    }
    &&& forall|i: int| 0 <= i < h.body.len() ==> body_line_ok(#[trigger] h.body[i])
}

pub open spec fn hunks_ok(hunks: Seq<HunkView>) -> bool {
    forall|i: int| 0 <= i < hunks.len() ==> hunk_ok(#[trigger] hunks[i])
}

proof fn lemma_read_line_ok(hunks: Seq<HunkView>, raw: Seq<char>)
    requires
        hunks_ok(hunks),
        read_line(hunks, raw) is Ok,
    ensures
        hunks_ok(read_line(hunks, raw)->Ok_0),
{
    let out = read_line(hunks, raw)->Ok_0;
    let line = strip_crs(raw);
    if trim(line).len() != 0 && anchor_of(line) == Ok::<Option<Anchor>, Seq<char>>(None) {
        let last = hunks[hunks.len() - 1];
        let b = body_line(line)->Ok_0;
        assert(hunk_ok(last));
        assert(body_line_ok(b));
        let grown = out[out.len() - 1];
        assert forall|i: int| 0 <= i < grown.body.len() implies body_line_ok(
            #[trigger] grown.body[i],
        ) by {
            if i < last.body.len() {
                assert(grown.body[i] == last.body[i]);
            }
        }
        assert(hunk_ok(grown));
        assert forall|i: int| 0 <= i < out.len() implies hunk_ok(#[trigger] out[i]) by {
            if i < hunks.len() - 1 {
                assert(out[i] == hunks[i]);
            }
        }
    } else if trim(line).len() != 0 {
        assert forall|i: int| 0 <= i < out.len() implies hunk_ok(#[trigger] out[i]) by {
            if i < hunks.len() {
                assert(out[i] == hunks[i]);
            }
        }
    }
}

proof fn lemma_read_lines_ok(hunks: Seq<HunkView>, rest: Seq<Seq<char>>)
    requires
        hunks_ok(hunks),
        read_lines(hunks, rest) is Ok,
    ensures
        hunks_ok(read_lines(hunks, rest)->Ok_0),
    decreases rest.len(),
{
    if rest.len() > 0 {
        lemma_read_line_ok(hunks, rest[0]);
        lemma_read_lines_ok(read_line(hunks, rest[0])->Ok_0, rest.drop_first());
    }
}

/// The hunks of a patch that reads well have line numbers that count from one.
pub proof fn lemma_hunks_of_ok(patch: Seq<char>)
    requires
        hunks_of(patch) is Ok,
    ensures
        hunks_ok(hunks_of(patch)->Ok_0),
{
    lemma_read_lines_ok(seq![], lines_of(patch));
}

// ---------------------------------------------------------------------------
// Applying hunks
// ---------------------------------------------------------------------------
pub open spec fn missing_line(line: int, total: int) -> Seq<char> {
    "line "@ + dec(line as nat) + " is out of range for this file ("@ + dec(total as nat)
        + " lines)"@
}

fn missing_line_error(line: usize, total: usize) -> (r: Error)
    ensures
        r@ == missing_line(line as int, total as int),
{
    let mut m = owned("line ");
    append_dec(&mut m, line as u64);
    m.append(" is out of range for this file (");
    append_dec(&mut m, total as u64);
    m.append(" lines)");
    Error::new(m)
}

/// The lines `start` to `end` as positions of a file of `total` lines.
pub open spec fn line_span(start: int, end: int, total: int) -> Result<(int, int), Seq<char>> {
    if start > end {
        Err(
            "hunk range start must be <= end: "@ + dec(start as nat) + " "@ + dec(end as nat),
        )
    } else if start > total {
        Err(missing_line(start, total))
    } else if end > total {
        Err(missing_line(end, total))
    } else {
        Ok((start - 1, end))
    }
}

fn find_line_span(start: usize, end: usize, total: usize) -> (r: Result<(usize, usize), Error>)
    requires
        start >= 1,
    ensures
        match r {
            Ok(p) => line_span(start as int, end as int, total as int) == Ok::<
                (int, int),
                Seq<char>,
            >((p.0 as int, p.1 as int)),
            Err(e) => line_span(start as int, end as int, total as int) == Err::<
                (int, int),
                Seq<char>,
            >(e@),
        },
{
    if start > end {
        let mut m = owned("hunk range start must be <= end: ");
        append_dec(&mut m, start as u64);
        m.append(" ");
        append_dec(&mut m, end as u64);
        return Err(Error::new(m));
    }
    if start > total {
        return Err(missing_line_error(start, total));
    }
    if end > total {
        return Err(missing_line_error(end, total));
    }
    Ok((start - 1, end))
}

/// The positions that an anchor stands for in a file of `total` lines.
pub open spec fn anchor_span(anchor: Anchor, total: int) -> Result<(int, int), Seq<char>> {
    match anchor {
        Anchor::Replace { start, end } => line_span(start as int, end as int, total),
        Anchor::Delete { start, end } => line_span(start as int, end as int, total),
        Anchor::Insert { target } => match target {
            InsertTarget::Start => Ok((0, 0)),
            InsertTarget::End => Ok((total, total)),
            InsertTarget::After(line) => if line > total {
                Err(
                    "insert line "@ + dec(line as nat) + " is out of range for this file ("@ + dec(
                        total as nat,
                    )
                        + " lines); use insert 0 for the start or insert -1 for the end"@,
                )
            } else {
                Ok((line as int, line as int))
            },
        },
    }
}

fn find_anchor_span(anchor: Anchor, total: usize) -> (r: Result<(usize, usize), Error>)
    requires
        match anchor {
            Anchor::Replace { start, end } => 1 <= start,
            Anchor::Delete { start, end } => 1 <= start,
            Anchor::Insert { .. } => true,
        },
    ensures
        match r {
            Ok(p) => anchor_span(anchor, total as int) == Ok::<(int, int), Seq<char>>(
                (p.0 as int, p.1 as int),
            ),
            Err(e) => anchor_span(anchor, total as int) == Err::<(int, int), Seq<char>>(e@),
        },
{
    match anchor {
        Anchor::Replace { start, end } => find_line_span(start, end, total),
        Anchor::Delete { start, end } => find_line_span(start, end, total),
        Anchor::Insert { target } => match target {
            InsertTarget::Start => Ok((0, 0)),
            InsertTarget::End => Ok((total, total)),
            InsertTarget::After(line) => {
                if line > total {
                    let mut m = owned("insert line ");
                    append_dec(&mut m, line as u64);
                    m.append(" is out of range for this file (");
                    append_dec(&mut m, total as u64);
                    m.append(" lines); use insert 0 for the start or insert -1 for the end");
                    return Err(Error::new(m));
                }
                Ok((line, line))
            },
        },
    }
}

/// The lines that a hunk's body stands for, where the file has `lines`.
pub open spec fn body_text(body: Seq<BodyLineView>, lines: Seq<Seq<char>>) -> Result<
    Seq<Seq<char>>,
    Seq<char>,
>
    decreases body.len(),
{
    if body.len() == 0 {
        Ok(seq![])
    } else {
        match body_text(body.drop_last(), lines) {
            Err(m) => Err(m),
            Ok(head) => match body.last() {
                BodyLineView::Literal(text) => Ok(head.push(text)),
                BodyLineView::Copy { start, end } => if start > lines.len() {
                    Err(missing_line(start as int, lines.len() as int))
                } else if end > lines.len() {
                    Err(missing_line(end as int, lines.len() as int))
                } else {
                    Ok(head + lines.subrange(start - 1, end as int))
                },
            },
        }
    }
}

fn build_body(body: &Vec<BodyLine>, lines: &[String]) -> (r: Result<Vec<String>, Error>)
    requires
        forall|i: int| 0 <= i < body@.len() ==> body_line_ok(#[trigger] views(body@)[i]),
    ensures
        match r {
            Ok(out) => body_text(views(body@), views(lines@)) == Ok::<Seq<Seq<char>>, Seq<char>>(
                views(out@),
            ),
            Err(e) => body_text(views(body@), views(lines@)) == Err::<Seq<Seq<char>>, Seq<char>>(
                e@,
            ),
        },
{
    broadcast use lemma_views_push;

    let ghost all = views(body@);
    let ghost rows = views(lines@);
    let mut out: Vec<String> = Vec::new();
    let mut i: usize = 0;
    proof {
        assert(all.take(0) =~= seq![]);
        assert(views(out@) =~= seq![]);
    }
    while i < body.len()
        invariant
            i <= body@.len(),
            all == views(body@),
            rows == views(lines@),
            forall|i: int| 0 <= i < body@.len() ==> body_line_ok(#[trigger] views(body@)[i]),
            body_text(all.take(i as int), rows) == Ok::<Seq<Seq<char>>, Seq<char>>(views(out@)),
        decreases body@.len() - i,
    {
        let ghost now = all.take(i + 1);
        proof {
            assert(now.drop_last() =~= all.take(i as int));
            assert(now.last() == body@[i as int]@);
            assert(body_line_ok(views(body@)[i as int]));
        }
        match &body[i] {
            BodyLine::Literal(text) => {
                let ghost before = out@;
                out.push(text.clone());
                proof {
                    assert(views(out@) == views(before).push(text@));
                }
            },
            BodyLine::Copy { start, end } => {
                let start: usize = *start;
                let end: usize = *end;
                if start > lines.len() {
                    proof {
                        lemma_body_text_fails(all, rows, i + 1);
                    }
                    return Err(missing_line_error(start, lines.len()));
                }
                if end > lines.len() {
                    proof {
                        lemma_body_text_fails(all, rows, i + 1);
                    }
                    return Err(missing_line_error(end, lines.len()));
                }
                copy_lines(&mut out, lines, start - 1, end);
            },
        }
        i = i + 1;
    }
    proof {
        assert(all.take(all.len() as int) =~= all);
    }
    Ok(out)
}

proof fn lemma_body_text_fails(body: Seq<BodyLineView>, lines: Seq<Seq<char>>, k: int)
    requires
        0 <= k <= body.len(),
        body_text(body.take(k), lines) is Err,
    ensures
        body_text(body, lines) == body_text(body.take(k), lines),
    decreases body.len(),
{
    if k == body.len() {
        assert(body.take(k) =~= body);
    } else {
        assert(body.drop_last().take(k) =~= body.take(k));
        lemma_body_text_fails(body.drop_last(), lines, k);
    }
}

/// The edit that a hunk makes to a file with these lines.
pub open spec fn hunk_edit(h: HunkView, lines: Seq<Seq<char>>) -> Result<
    EditView<Seq<char>>,
    Seq<char>,
> {
    match anchor_span(h.anchor, lines.len() as int) {
        Err(m) => Err(m),
        Ok((start, end)) => match body_text(h.body, lines) {
            Err(m) => Err(m),
            Ok(replacement) => Ok(EditView { start, end, replacement, order: h.order }),
        },
    }
}

pub fn hunk_to_operation(hunk: &Hunk, lines: &[String]) -> (r: Result<Edit<String>, Error>)
    requires
        hunk_ok(hunk@),
    ensures
        match r {
            Ok(op) => hunk_edit(hunk@, views(lines@)) == Ok::<EditView<Seq<char>>, Seq<char>>(op@)
                && op.start <= op.end <= lines@.len(),
            Err(e) => hunk_edit(hunk@, views(lines@)) == Err::<EditView<Seq<char>>, Seq<char>>(e@),
        },
{
    let (start, end) = match find_anchor_span(hunk.anchor, lines.len()) {
        Ok(p) => p,
        Err(e) => {
            return Err(e);
        },
    };
    proof {
        assert(hunk@.body == views(hunk.body@));
    }
    match build_body(&hunk.body, lines) {
        Ok(replacement) => Ok(Edit { start, end, replacement, order: hunk.order }),
        Err(e) => Err(e),
    }
}

/// The edits of all hunks, or the first that fails.
pub open spec fn hunk_edits(hunks: Seq<HunkView>, lines: Seq<Seq<char>>) -> Result<
    Seq<EditView<Seq<char>>>,
    Seq<char>,
>
    decreases hunks.len(),
{
    if hunks.len() == 0 {
        Ok(seq![])
    } else {
        match hunk_edits(hunks.drop_last(), lines) {
            Err(m) => Err(m),
            Ok(edits) => match hunk_edit(hunks.last(), lines) {
                Err(m) => Err(m),
                Ok(edit) => Ok(edits.push(edit)),
            },
        }
    }
}

proof fn lemma_hunk_edits_fails(hunks: Seq<HunkView>, lines: Seq<Seq<char>>, k: int)
    requires
        0 <= k <= hunks.len(),
        hunk_edits(hunks.take(k), lines) is Err,
    ensures
        hunk_edits(hunks, lines) == hunk_edits(hunks.take(k), lines),
    decreases hunks.len(),
{
    if k == hunks.len() {
        assert(hunks.take(k) =~= hunks);
    } else {
        assert(hunks.drop_last().take(k) =~= hunks.take(k));
        lemma_hunk_edits_fails(hunks.drop_last(), lines, k);
    }
}

/// A text with hunks applied, or what stands in the way.
pub open spec fn patched(text: Seq<char>, hunks: Seq<HunkView>) -> Result<Seq<char>, Seq<char>> {
    let lines = text_lines(text);
    match hunk_edits(hunks, lines) {
        Err(m) => Err(m),
        Ok(edits) => match edited(lines, edits) {
            None => Err("patch hunks overlap or target an already replaced line"@),
            Some(out) => Ok(lines_text(out, has_final_newline(text))),
        },
    }
}

/// Applies hunks to a text. All line numbers are those of the text as given.
pub fn apply_hunks(text: &str, hunks: &[Hunk]) -> (r: Result<String, Error>)
    requires
        hunks_ok(views(hunks@)),
    ensures
        match r {
            Ok(out) => patched(text@, views(hunks@)) == Ok::<Seq<char>, Seq<char>>(out@),
            Err(e) => patched(text@, views(hunks@)) == Err::<Seq<char>, Seq<char>>(e@),
        },
{
    broadcast use lemma_views_push;

    let (lines, final_newline) = split_text_lines(text);
    let ghost rows = views(lines@);
    let ghost all = views(hunks@);
    let mut ops: Vec<Edit<String>> = Vec::new();
    let mut i: usize = 0;
    proof {
        assert(all.take(0) =~= seq![]);
        assert(views(ops@) =~= seq![]);
    }
    while i < hunks.len()
        invariant
            i <= hunks@.len(),
            all == views(hunks@),
            hunks_ok(all),
            rows == views(lines@),
            rows == text_lines(text@),
            hunk_edits(all.take(i as int), rows) == Ok::<Seq<EditView<Seq<char>>>, Seq<char>>(
                views(ops@),
            ),
            within(views(ops@), lines@.len() as int),
        decreases hunks@.len() - i,
    {
        let ghost now = all.take(i + 1);
        proof {
            assert(now.drop_last() =~= all.take(i as int));
            assert(now.last() == hunks@[i as int]@);
            assert(hunk_ok(all[i as int]));
        }
        match hunk_to_operation(&hunks[i], lines.as_slice()) {
            Ok(op) => {
                let ghost before = ops@;
                ops.push(op);
                proof {
                    assert(views(ops@) == views(before).push(op@));
                }
            },
            Err(e) => {
                proof {
                    lemma_hunk_edits_fails(all, rows, i + 1);
                }
                return Err(e);
            },
        }
        i = i + 1;
    }
    proof {
        assert(all.take(all.len() as int) =~= all);
    }
    match edit_lines(lines.as_slice(), ops) {
        Some(out) => Ok(join_text_lines(out.as_slice(), final_newline)),
        None => Err(Error::of("patch hunks overlap or target an already replaced line")),
    }
}

proof fn lemma_hunk_edits_are(hunks: Seq<HunkView>, lines: Seq<Seq<char>>)
    ensures
        hunk_edits(hunks, lines) is Ok <==> forall|i: int|
            0 <= i < hunks.len() ==> hunk_edit(#[trigger] hunks[i], lines) is Ok,
        hunk_edits(hunks, lines) is Ok ==> hunk_edits(hunks, lines)->Ok_0 == hunks.map_values(
            |h: HunkView| hunk_edit(h, lines)->Ok_0,
        ),
    decreases hunks.len(),
{
    let f = |h: HunkView| hunk_edit(h, lines)->Ok_0;
    if hunks.len() == 0 {
        assert(hunk_edits(hunks, lines)->Ok_0 =~= hunks.map_values(f));
    } else {
        let most = hunks.drop_last();
        lemma_hunk_edits_are(most, lines);
        if hunk_edits(hunks, lines) is Ok {
            assert forall|i: int| 0 <= i < hunks.len() implies hunk_edit(
                #[trigger] hunks[i],
                lines,
            ) is Ok by {
                if i < most.len() {
                    assert(most[i] == hunks[i]);
                }
            }
            assert(hunk_edits(hunks, lines)->Ok_0 =~= hunks.map_values(f));
        }
        if forall|i: int| 0 <= i < hunks.len() ==> hunk_edit(#[trigger] hunks[i], lines) is Ok {
            assert forall|i: int| 0 <= i < most.len() implies hunk_edit(
                #[trigger] most[i],
                lines,
            ) is Ok by {
                assert(most[i] == hunks[i]);
            }
            assert(hunk_edit(hunks[hunks.len() - 1], lines) is Ok);
        }
    }
}

/// Line numbers always mean the file as it was, so the sequence in which hunks are listed
/// does not matter, as long as each keeps its order: the outcome is the same, and
/// there is one in the same cases.
pub proof fn lemma_patched_in_any_listing(text: Seq<char>, hunks: Seq<HunkView>, listed: Seq<HunkView>)
    requires
        hunks.to_multiset() == listed.to_multiset(),
        forall|i: int, j: int|
            0 <= i < j < hunks.len() ==> (#[trigger] hunks[i]).order != (#[trigger] hunks[j]).order,
    ensures
        patched(text, hunks) is Ok <==> patched(text, listed) is Ok,
        patched(text, hunks) is Ok ==> patched(text, hunks) == patched(text, listed),
{
    broadcast use vstd::seq_lib::group_to_multiset_ensures;

    let lines = text_lines(text);
    let f = |h: HunkView| hunk_edit(h, lines)->Ok_0;
    lemma_hunk_edits_are(hunks, lines);
    lemma_hunk_edits_are(listed, lines);
    if hunk_edits(hunks, lines) is Ok {
        assert forall|i: int| 0 <= i < listed.len() implies hunk_edit(#[trigger] listed[i], lines) is Ok by {
            assert(listed.contains(listed[i]));
            assert(listed.to_multiset().count(listed[i]) > 0);
            assert(hunks.contains(listed[i]));
        }
        let edits = hunk_edits(hunks, lines)->Ok_0;
        lemma_map_permutes(hunks, listed, f);
        assert(told_apart(edits)) by {
            assert forall|a: EditView<Seq<char>>, b: EditView<Seq<char>>|
                #![trigger edits.contains(a), edits.contains(b)]
                edits.contains(a) && edits.contains(b) && a.order == b.order implies a == b by {
                let i = choose|i: int| 0 <= i < edits.len() && edits[i] == a;
                let j = choose|j: int| 0 <= j < edits.len() && edits[j] == b;
                assert(hunk_edit(hunks[i], lines) is Ok && hunk_edit(hunks[j], lines) is Ok);
                assert(a.order == hunks[i].order && b.order == hunks[j].order);
            }
        }
        lemma_listing_does_not_matter(edits, hunk_edits(listed, lines)->Ok_0);
    } else {
        let i = choose|i: int| 0 <= i < hunks.len() && !(hunk_edit(#[trigger] hunks[i], lines) is Ok);
        assert(hunks.contains(hunks[i]));
        assert(hunks.to_multiset().count(hunks[i]) > 0);
        assert(listed.contains(hunks[i]));
        let j = choose|j: int| 0 <= j < listed.len() && listed[j] == hunks[i];
        assert(!(hunk_edit(listed[j], lines) is Ok));
    }
}

} // verus!
