//! The shape of a text file: byte order mark, line ends, lines.

use crate::bytes::{binary_byte, binary_offset, text_from_utf8, utf8_of};
use crate::error::Error;
use crate::text::number::{append_dec, append_hex2_upper, dec, hex2_upper};
use crate::text::split::{
    find_char, index_of, join, joined, lemma_find_char, lemma_find_char_is, replace_char, split,
    split_at_char, with_char_replaced,
};
use crate::text::{chars_of, lemma_views_push, owned, string_of, views};
use vstd::prelude::*;
use vstd::slice::slice_subrange;
use vstd::utf8::{decode_utf8, encode_utf8, valid_utf8};

verus! {

#[derive(Clone, Copy, Debug, PartialEq, Eq, Structural)]
pub enum LineEnding {
    Lf,
    CrLf,
}

/// A text ends its lines with `\r\n` where its first line does.
pub open spec fn line_ending_of(s: Seq<char>) -> LineEnding {
    let k = find_char(s, '\n');
    if 0 < k < s.len() && s[k - 1] == '\r' {
        LineEnding::CrLf
    } else {
        LineEnding::Lf
    }
}

pub fn detect_line_ending(s: &[char]) -> (r: LineEnding)
    ensures
        r == line_ending_of(s@),
{
    let k: usize = index_of(s, '\n');
    if 0 < k && k < s.len() && s[k - 1] == '\r' {
        LineEnding::CrLf
    } else {
        LineEnding::Lf
    }
}

/// `s` with every `\r\n` and every other `\r` written as `\n`.
pub open spec fn lf_text(s: Seq<char>) -> Seq<char>
    decreases s.len(),
{
    if s.len() == 0 {
        seq![]
    } else if s[0] == '\r' && s.len() > 1 && s[1] == '\n' {
        seq!['\n'] + lf_text(s.skip(2))
    } else if s[0] == '\r' {
        seq!['\n'] + lf_text(s.skip(1))
    } else {
        seq![s[0]] + lf_text(s.skip(1))
    }
}

pub fn normalize_to_lf(s: &[char]) -> (r: String)
    ensures
        r@ == lf_text(s@),
{
    let mut out = String::new();
    let mut i: usize = 0;
    proof {
        assert(s@.skip(0) =~= s@);
        assert(out@ + lf_text(s@) =~= lf_text(s@));
    }
    while i < s.len()
        invariant
            i <= s@.len(),
            out@ + lf_text(s@.skip(i as int)) == lf_text(s@),
        decreases s@.len() - i,
    {
        let ghost before = out@;
        let ghost rest = s@.skip(i as int);
        let c: char = s[i];
        let mut step: usize = 1;
        let mut put: char = c;
        if c == '\r' {
            put = '\n';
            if i + 1 < s.len() && s[i + 1] == '\n' {
                step = 2;
            }
        }
        proof {
            assert(rest.skip(step as int) =~= s@.skip(i + step));
            assert(before.push(put) + lf_text(s@.skip(i + step)) =~= before + lf_text(rest));
        }
        out.push(put);
        i = i + step;
    }
    proof {
        assert(out@ + lf_text(s@.skip(i as int)) =~= out@);
    }
    out
}

/// `s` with the line ends that a file uses.
pub open spec fn ended_text(s: Seq<char>, ending: LineEnding) -> Seq<char> {
    match ending {
        LineEnding::CrLf => replace_char(s, '\n', "\r\n"@),
        LineEnding::Lf => s,
    }
}

pub fn restore_line_endings(s: &str, ending: LineEnding) -> (r: String)
    ensures
        r@ == ended_text(s@, ending),
{
    match ending {
        LineEnding::CrLf => {
            let all = chars_of(s);
            with_char_replaced(all.as_slice(), '\n', "\r\n")
        },
        LineEnding::Lf => owned(s),
    }
}

/// A text file as patches see it: its text with `\n` line ends, and what it
/// takes to write such a text back in the file's own form.
pub struct TextShape {
    pub bom: bool,
    pub line_ending: LineEnding,
    pub text: String,
}

#[verifier::ext_equal]
pub struct TextShapeView {
    pub bom: bool,
    pub line_ending: LineEnding,
    pub text: Seq<char>,
}

impl View for TextShape {
    type V = TextShapeView;

    open spec fn view(&self) -> TextShapeView {
        TextShapeView { bom: self.bom, line_ending: self.line_ending, text: self.text@ }
    }
}

pub open spec fn shape_of_text(raw: Seq<char>) -> TextShapeView {
    let bom = raw.len() > 0 && raw[0] == '\u{FEFF}';
    TextShapeView {
        bom,
        line_ending: line_ending_of(raw),
        text: lf_text(
            if bom {
                raw.skip(1)
            } else {
                raw
            },
        ),
    }
}

/// The shape of a file, or why it is no text file.
pub open spec fn shape_of(bytes: Seq<u8>) -> Result<TextShapeView, Seq<char>> {
    match binary_offset(bytes) {
        Some(k) => Err(
            "Cannot patch binary file (binary byte at offset "@ + dec(k as nat) + ": 0x"@
                + hex2_upper(0) + ")"@,
        ),
        None => if valid_utf8(bytes) {
            Ok(shape_of_text(decode_utf8(bytes)))
        } else {
            Err("Cannot patch non-UTF-8 text file"@)
        },
    }
}

/// The text of a file of this shape whose lines are those of `text`.
pub open spec fn raw_text(shape: TextShapeView, text: Seq<char>) -> Seq<char> {
    (if shape.bom {
        seq!['\u{FEFF}']
    } else {
        seq![]
    }) + ended_text(text, shape.line_ending)
}

impl TextShape {
    pub fn from_bytes(bytes: Vec<u8>) -> (r: Result<TextShape, Error>)
        ensures
            match r {
                Ok(shape) => shape_of(bytes@) == Ok::<TextShapeView, Seq<char>>(shape@),
                Err(e) => shape_of(bytes@) == Err::<TextShapeView, Seq<char>>(e@),
            },
    {
        match binary_byte(bytes.as_slice()) {
            Some((offset, byte)) => {
                let mut m = owned("Cannot patch binary file (binary byte at offset ");
                append_dec(&mut m, offset as u64);
                m.append(": 0x");
                append_hex2_upper(&mut m, byte);
                m.append(")");
                return Err(Error::new(m));
            },
            None => {},
        }
        let raw = match text_from_utf8(bytes) {
            Some(raw) => raw,
            None => {
                return Err(Error::of("Cannot patch non-UTF-8 text file"));
            },
        };
        let all = chars_of(raw.as_str());
        let line_ending = detect_line_ending(all.as_slice());
        let bom: bool = all.len() > 0 && all[0] == '\u{FEFF}';
        let body = if bom {
            slice_subrange(all.as_slice(), 1, all.len())
        } else {
            all.as_slice()
        };
        proof {
            if bom {
                assert(body@ =~= raw@.skip(1));
            }
        }
        Ok(TextShape { bom, line_ending, text: normalize_to_lf(body) })
    }

    /// The bytes of a file of this shape whose lines are those of `text`.
    pub fn encode(&self, text: &str) -> (r: Vec<u8>)
        ensures
            r@ == encode_utf8(raw_text(self@, text@)),
    {
        let raw = restore_line_endings(text, self.line_ending);
        let mut out = String::new();
        if self.bom {
            out.push('\u{FEFF}');
            proof {
                assert(out@ =~= seq!['\u{FEFF}']);
            }
        }
        out.append(raw.as_str());
        utf8_of(out.as_str())
    }
}

// ---------------------------------------------------------------------------
// Lines
// ---------------------------------------------------------------------------
pub open spec fn has_final_newline(text: Seq<char>) -> bool {
    text.len() > 0 && text.last() == '\n'
}

/// The lines of a text. A final line end closes the last line.
pub open spec fn text_lines(text: Seq<char>) -> Seq<Seq<char>> {
    let body = if has_final_newline(text) {
        text.drop_last()
    } else {
        text
    };
    if body.len() == 0 {
        seq![]
    } else {
        split(body, '\n')
    }
}

/// The text with these lines.
pub open spec fn lines_text(lines: Seq<Seq<char>>, final_newline: bool) -> Seq<char> {
    join(lines, "\n"@) + (if final_newline {
        "\n"@
    } else {
        seq![]
    })
}

fn own_all(parts: &Vec<&[char]>) -> (r: Vec<String>)
    ensures
        views(r@) == views(parts@),
{
    broadcast use lemma_views_push;

    let mut out: Vec<String> = Vec::new();
    let mut i: usize = 0;
    proof {
        assert(views(out@) =~= views(parts@).take(0));
    }
    while i < parts.len()
        invariant
            i <= parts@.len(),
            views(out@) == views(parts@).take(i as int),
        decreases parts@.len() - i,
    {
        proof {
            let all = views(parts@);
            assert(all.take(i + 1) =~= all.take(i as int).push(all[i as int]));
        }
        out.push(string_of(parts[i]));
        i = i + 1;
    }
    proof {
        assert(views(parts@).take(parts@.len() as int) =~= views(parts@));
    }
    out
}

pub fn split_text_lines(text: &str) -> (r: (Vec<String>, bool))
    ensures
        views(r.0@) == text_lines(text@),
        r.1 == has_final_newline(text@),
{
    let all = chars_of(text);
    let n: usize = all.len();
    let final_newline: bool = n > 0 && all[n - 1] == '\n';
    let body = if final_newline {
        slice_subrange(all.as_slice(), 0, n - 1)
    } else {
        all.as_slice()
    };
    proof {
        if final_newline {
            assert(body@ =~= text@.drop_last());
        }
    }
    if body.len() == 0 {
        let none: Vec<String> = Vec::new();
        proof {
            assert(views(none@) =~= seq![]);
        }
        return (none, final_newline);
    }
    let parts = split_at_char(body, '\n');
    (own_all(&parts), final_newline)
}

pub fn join_text_lines(lines: &[String], final_newline: bool) -> (r: String)
    ensures
        r@ == lines_text(views(lines@), final_newline),
{
    let mut text = joined(lines, "\n");
    proof {
        assert(text@ + seq![] =~= text@);
    }
    if final_newline {
        text.append("\n");
    }
    text
}

/// The lines of a text that the line end after the last of them closes.
pub open spec fn terminated_lines(text: Seq<char>) -> Seq<Seq<char>> {
    let parts = split(text, '\n');
    if parts.last().len() == 0 {
        parts.drop_last()
    } else {
        parts
    }
}

pub fn split_terminated_lines(text: &str) -> (r: Vec<String>)
    ensures
        views(r@) == terminated_lines(text@),
{
    let all = chars_of(text);
    let parts = split_at_char(all.as_slice(), '\n');
    let mut out = own_all(&parts);
    proof {
        assert(views(out@).last() == views(parts@).last());
    }
    let n: usize = parts.len();
    if parts[n - 1].len() == 0 {
        let ghost before = out@;
        let _ = out.pop();
        proof {
            assert(views(out@) =~= views(before).drop_last());
        }
    }
    out
}

// ---------------------------------------------------------------------------
// What splitting, joining and line ends undo
// ---------------------------------------------------------------------------
pub proof fn lemma_join_first(first: Seq<char>, rest: Seq<Seq<char>>, sep: Seq<char>)
    requires
        rest.len() > 0,
    ensures
        join(seq![first] + rest, sep) == first + sep + join(rest, sep),
    decreases rest.len(),
{
    let all = seq![first] + rest;
    assert(all.last() == rest.last());
    if rest.len() == 1 {
        assert(all.drop_last() =~= seq![first]);
        assert(join(seq![first], sep) == first);
    } else {
        assert(all.drop_last() =~= seq![first] + rest.drop_last());
        lemma_join_first(first, rest.drop_last(), sep);
        assert(first + sep + join(rest.drop_last(), sep) + sep + rest.last() =~= first + sep + (
        join(rest.drop_last(), sep) + sep + rest.last()));
    }
}

proof fn lemma_join_split(s: Seq<char>)
    ensures
        split(s, '\n').len() > 0,
        join(split(s, '\n'), "\n"@) == s,
    decreases s.len(),
{
    reveal_strlit("\n");
    lemma_find_char(s, '\n');
    let k = find_char(s, '\n');
    if k < s.len() {
        let rest = s.skip(k + 1);
        lemma_join_split(rest);
        lemma_join_first(s.take(k), split(rest, '\n'), "\n"@);
        assert(s.take(k) + "\n"@ + rest =~= s);
    } else {
        assert(join(seq![s], "\n"@) == s);
    }
}

/// Joining the lines of a text gives the text back.
pub proof fn lemma_lines_round_trip(text: Seq<char>)
    ensures
        lines_text(text_lines(text), has_final_newline(text)) == text,
{
    reveal_strlit("\n");
    let body = if has_final_newline(text) {
        text.drop_last()
    } else {
        text
    };
    if body.len() > 0 {
        lemma_join_split(body);
    }
    if has_final_newline(text) {
        assert(body + "\n"@ =~= text);
    } else {
        assert(body + seq![] =~= text);
    }
}

proof fn lemma_replace_first_char(s: Seq<char>, by: Seq<char>)
    requires
        s.len() > 0,
    ensures
        replace_char(s, '\n', by) == (if s[0] == '\n' {
            by
        } else {
            seq![s[0]]
        }) + replace_char(s.skip(1), '\n', by),
    decreases s.len(),
{
    let head = if s[0] == '\n' {
        by
    } else {
        seq![s[0]]
    };
    if s.len() == 1 {
        assert(s.drop_last() =~= seq![]);
        assert(s.skip(1) =~= seq![]);
        assert(replace_char(s.drop_last(), '\n', by) =~= seq![]);
        assert(replace_char(s.skip(1), '\n', by) =~= seq![]);
        assert(replace_char(s, '\n', by) =~= head);
        assert(head + seq![] =~= head);
    } else {
        lemma_replace_first_char(s.drop_last(), by);
        assert(s.drop_last().skip(1) =~= s.skip(1).drop_last());
        let tail = if s.last() == '\n' {
            by
        } else {
            seq![s.last()]
        };
        assert((head + replace_char(s.skip(1).drop_last(), '\n', by)) + tail =~= head + (
        replace_char(s.skip(1).drop_last(), '\n', by) + tail));
    }
}

/// Reading back a text that was written with a file's line ends gives the text.
pub proof fn lemma_line_ends_read_back(text: Seq<char>, ending: LineEnding)
    requires
        !text.contains('\r'),
    ensures
        lf_text(ended_text(text, ending)) == text,
    decreases text.len(),
{
    reveal_strlit("\r\n");
    let by = "\r\n"@;
    let out = ended_text(text, ending);
    if text.len() == 0 {
        assert(out =~= seq![]);
        assert(lf_text(out) =~= text);
    } else {
        let rest = text.skip(1);
        assert forall|c: char| rest.contains(c) implies text.contains(c) by {
            let i = choose|i: int| 0 <= i < rest.len() && rest[i] == c;
            assert(text[i + 1] == c);
        }
        lemma_line_ends_read_back(rest, ending);
        assert(text[0] != '\r') by {
            assert(text.contains(text[0]));
        }
        assert(seq![text[0]] + rest =~= text);
        match ending {
            LineEnding::CrLf => {
                lemma_replace_first_char(text, by);
                if text[0] == '\n' {
                    assert(out.skip(2) =~= ended_text(rest, ending));
                } else {
                    assert(out.skip(1) =~= ended_text(rest, ending));
                }
            },
            LineEnding::Lf => {},
        }
    }
}

/// Every `\n` follows a `\r` and every `\r` is followed by a `\n`.
pub open spec fn all_crlf(s: Seq<char>) -> bool {
    &&& forall|i: int| 0 <= i < s.len() && #[trigger] s[i] == '\n' ==> i > 0 && s[i - 1] == '\r'
    &&& forall|i: int|
        0 <= i < s.len() && #[trigger] s[i] == '\r' ==> i + 1 < s.len() && s[i + 1] == '\n'
}

/// All line ends of the text are alike.
pub open spec fn uniform_line_ends(s: Seq<char>) -> bool {
    !s.contains('\r') || all_crlf(s)
}

proof fn lemma_lf_text_same(s: Seq<char>)
    requires
        !s.contains('\r'),
    ensures
        lf_text(s) == s,
    decreases s.len(),
{
    if s.len() > 0 {
        let rest = s.skip(1);
        assert forall|c: char| rest.contains(c) implies s.contains(c) by {
            let i = choose|i: int| 0 <= i < rest.len() && rest[i] == c;
            assert(s[i + 1] == c);
        }
        assert(s.contains(s[0]));
        lemma_lf_text_same(rest);
        assert(seq![s[0]] + rest =~= s);
    }
}

proof fn lemma_crlf_restored(s: Seq<char>)
    requires
        all_crlf(s),
    ensures
        ended_text(lf_text(s), LineEnding::CrLf) == s,
    decreases s.len(),
{
    reveal_strlit("\r\n");
    let by = "\r\n"@;
    if s.len() > 0 {
        assert(s[0] != '\n');
        let step: int = if s[0] == '\r' {
            2
        } else {
            1
        };
        let rest = s.skip(step);
        assert(all_crlf(rest)) by {
            assert forall|i: int| 0 <= i < rest.len() && #[trigger] rest[i] == '\n' implies i > 0
                && rest[i - 1] == '\r' by {
                assert(s[i + step] == '\n');
                if i == 0 {
                    assert(s[step - 1] == '\r');
                    assert(step == 2 ==> s[1] == '\n');
                }
            }
            assert forall|i: int| 0 <= i < rest.len() && #[trigger] rest[i] == '\r' implies i + 1
                < rest.len() && rest[i + 1] == '\n' by {
                assert(s[i + step] == '\r');
            }
        }
        lemma_crlf_restored(rest);
        let lf = lf_text(s);
        lemma_replace_first_char(lf, by);
        assert(lf.skip(1) =~= lf_text(rest));
        if step == 2 {
            assert(by + rest =~= s);
        } else {
            assert(seq![s[0]] + rest =~= s);
        }
    }
}

/// A text whose line ends are alike has the line ends that its first line has.
proof fn lemma_uniform_ending(s: Seq<char>)
    requires
        uniform_line_ends(s),
    ensures
        ended_text(lf_text(s), line_ending_of(s)) == s,
{
    lemma_find_char(s, '\n');
    let k = find_char(s, '\n');
    if !s.contains('\r') {
        lemma_lf_text_same(s);
        if 0 < k < s.len() {
            assert(s.contains(s[k - 1]));
        }
    } else {
        let i = choose|i: int| 0 <= i < s.len() && s[i] == '\r';
        assert(s[i + 1] == '\n');
        assert(k < s.len());
        lemma_crlf_restored(s);
    }
}

/// What follows the byte order mark of a text, or all of it.
pub open spec fn without_bom(raw: Seq<char>) -> Seq<char> {
    if raw.len() > 0 && raw[0] == '\u{FEFF}' {
        raw.skip(1)
    } else {
        raw
    }
}

/// A text file whose line ends are alike is written back byte for byte where
/// its text has not changed.
pub proof fn lemma_shape_round_trip(bytes: Seq<u8>)
    requires
        shape_of(bytes) is Ok,
        uniform_line_ends(without_bom(decode_utf8(bytes))),
    ensures
        encode_utf8(raw_text(shape_of(bytes)->Ok_0, shape_of(bytes)->Ok_0.text)) == bytes,
{
    let raw = decode_utf8(bytes);
    let shape = shape_of_text(raw);
    let body = without_bom(raw);
    lemma_uniform_ending(body);
    if shape.bom {
        lemma_find_char(body, '\n');
        let k = find_char(body, '\n');
        assert forall|i: int| 0 <= i < k + 1 implies raw[i] != '\n' by {
            if i > 0 {
                assert(body[i - 1] == raw[i]);
            }
        }
        lemma_find_char_is(raw, '\n', k + 1);
        assert(line_ending_of(raw) == line_ending_of(body));
        assert(seq!['\u{FEFF}'] + body =~= raw);
    } else {
        assert(seq![] + body =~= raw);
    }
    vstd::utf8::decode_utf8_encode_utf8(bytes);
}

/// What a file of this shape with these lines holds, as text: the byte order mark where
/// it has one, and every line with the line end of the file.
pub open spec fn shaped_text(
    bom: bool,
    ending: LineEnding,
    rows: Seq<Seq<char>>,
    closed: bool,
) -> Seq<char> {
    (if bom {
        seq!['\u{FEFF}']
    } else {
        seq![]
    }) + join(
        rows,
        if ending is CrLf {
            "\r\n"@
        } else {
            "\n"@
        },
    ) + (if !closed {
        seq![]
    } else if ending is CrLf {
        "\r\n"@
    } else {
        "\n"@
    })
}

/// Whether lines can stand in a file: there is no line end and no carriage return in them.
pub open spec fn are_bare(rows: Seq<Seq<char>>) -> bool {
    forall|i: int|
        0 <= i < rows.len() ==> !(#[trigger] rows[i]).contains('\n') && !rows[i].contains('\r')
}

proof fn lemma_ended_join(rows: Seq<Seq<char>>)
    requires
        are_bare(rows),
    ensures
        replace_char(join(rows, "\n"@), '\n', "\r\n"@) == join(rows, "\r\n"@),
        !join(rows, "\n"@).contains('\r'),
    decreases rows.len(),
{
    reveal_strlit("\n");
    let s = join(rows, "\n"@);
    if rows.len() == 0 {
        assert(replace_char(s, '\n', "\r\n"@) =~= seq![]);
    } else {
        let last = rows.last();
        assert(rows[rows.len() - 1] == last);
        crate::text::more_laws::lemma_replace_char_keeps(last, '\n', "\r\n"@);
        if rows.len() == 1 {
        } else {
            let most = rows.drop_last();
            assert forall|i: int| 0 <= i < most.len() implies !(#[trigger] most[i]).contains('\n')
                && !most[i].contains('\r') by {
                assert(most[i] == rows[i]);
            }
            lemma_ended_join(most);
            let front = join(most, "\n"@);
            assert(s =~= front + (seq!['\n'] + last));
            crate::text::more_laws::lemma_replace_char_by_parts(
                front,
                seq!['\n'] + last,
                '\n',
                "\r\n"@,
            );
            crate::text::more_laws::lemma_replace_char_by_parts(seq!['\n'], last, '\n', "\r\n"@);
            assert(replace_char(s, '\n', "\r\n"@) =~= join(most, "\r\n"@) + "\r\n"@ + last);
            assert forall|i: int| 0 <= i < s.len() implies s[i] != '\r' by {
                if i < front.len() {
                    assert(front.contains(front[i]));
                } else if i > front.len() {
                    assert(last.contains(last[i - front.len() - 1]));
                }
            }
        }
    }
}

/// A file gets its lines back in the shape that it had: with its byte order mark and its
/// own line ends.
pub proof fn lemma_shape_is_kept(shape: TextShapeView, rows: Seq<Seq<char>>, closed: bool)
    requires
        are_bare(rows),
    ensures
        raw_text(shape, lines_text(rows, closed)) == shaped_text(
            shape.bom,
            shape.line_ending,
            rows,
            closed,
        ),
        !lines_text(rows, closed).contains('\r'),
{
    reveal_strlit("\n");
    reveal_strlit("\r\n");
    lemma_ended_join(rows);
    let text = join(rows, "\n"@);
    let whole = lines_text(rows, closed);
    if closed {
        assert(whole =~= text + seq!['\n']);
        crate::text::more_laws::lemma_replace_char_by_parts(text, seq!['\n'], '\n', "\r\n"@);
    } else {
        assert(whole =~= text);
    }
    assert forall|i: int| 0 <= i < whole.len() implies whole[i] != '\r' by {
        if i < text.len() {
            assert(text.contains(text[i]));
        }
    }
    assert(raw_text(shape, whole) =~= shaped_text(shape.bom, shape.line_ending, rows, closed));
}

pub open spec fn line_end(ending: LineEnding) -> Seq<char> {
    if ending is CrLf {
        "\r\n"@
    } else {
        "\n"@
    }
}

proof fn lemma_first_line_end(front: Seq<char>, first: Seq<char>, ending: LineEnding, rest: Seq<char>)
    requires
        !front.contains('\n'),
        !front.contains('\r'),
        !first.contains('\n'),
        !first.contains('\r'),
    ensures
        line_ending_of(front + first + line_end(ending) + rest) == ending,
{
    reveal_strlit("\n");
    reveal_strlit("\r\n");
    let head = front + first;
    let raw = head + line_end(ending) + rest;
    assert(front + first + line_end(ending) + rest =~= raw);
    assert forall|i: int| 0 <= i < head.len() implies head[i] != '\n' && head[i] != '\r' by {
        if i < front.len() {
            assert(front.contains(front[i]));
        } else {
            assert(first.contains(first[i - front.len()]));
        }
    }
    let h = head.len() as int;
    if ending is CrLf {
        assert(raw[h] == '\r' && raw[h + 1] == '\n');
        lemma_find_char_is(raw, '\n', h + 1);
    } else {
        assert(raw[h] == '\n');
        lemma_find_char_is(raw, '\n', h);
    }
}

proof fn lemma_body_starts(ending: LineEnding, rows: Seq<Seq<char>>, closed: bool) -> (rest: Seq<char>)
    requires
        are_bare(rows),
        rows.len() > 0,
    ensures
        rows.len() > 1 || closed ==> ended_text(lines_text(rows, closed), ending) == rows[0] + line_end(
            ending,
        ) + rest,
        rows.len() == 1 && !closed ==> ended_text(lines_text(rows, closed), ending) == rows[0],
        shaped_text(false, ending, rows, closed) == ended_text(lines_text(rows, closed), ending),
{
    let shape = TextShapeView { bom: false, line_ending: ending, text: seq![] };
    let sep = line_end(ending);
    let tail: Seq<char> = if closed {
        sep
    } else {
        seq![]
    };
    lemma_shape_is_kept(shape, rows, closed);
    let body = ended_text(lines_text(rows, closed), ending);
    assert(raw_text(shape, lines_text(rows, closed)) =~= body);
    assert(body =~= join(rows, sep) + tail);
    if rows.len() > 1 {
        crate::text::laws::lemma_join_from_front(rows, sep);
        let rest = join(rows.drop_first(), sep) + tail;
        assert(body =~= rows[0] + sep + rest);
        rest
    } else {
        assert(join(rows, sep) == rows[0]);
        if closed {
            assert(body =~= rows[0] + sep + Seq::<char>::empty());
        } else {
            assert(body =~= rows[0]);
        }
        seq![]
    }
}

/// The shape of a file that holds lines is read off it: its byte order mark, its line
/// ends where it has any, and its lines.
pub proof fn lemma_shape_is_read(
    bom: bool,
    ending: LineEnding,
    rows: Seq<Seq<char>>,
    closed: bool,
)
    requires
        are_bare(rows),
        rows.len() > 0,
        rows.len() > 1 || closed || ending is Lf,
        !bom ==> rows[0].len() == 0 || rows[0][0] != '\u{FEFF}',
        binary_offset(encode_utf8(shaped_text(bom, ending, rows, closed))) is None,
    ensures
        shape_of(encode_utf8(shaped_text(bom, ending, rows, closed))) == Ok::<
            TextShapeView,
            Seq<char>,
        >(TextShapeView { bom, line_ending: ending, text: lines_text(rows, closed) }),
{
    let shape = TextShapeView { bom, line_ending: ending, text: lines_text(rows, closed) };
    let raw = shaped_text(bom, ending, rows, closed);
    let text = lines_text(rows, closed);
    let body = ended_text(text, ending);
    let front: Seq<char> = if bom {
        seq!['\u{FEFF}']
    } else {
        seq![]
    };
    lemma_shape_is_kept(shape, rows, closed);
    vstd::utf8::encode_utf8_valid_utf8(raw);
    vstd::utf8::encode_utf8_decode_utf8(raw);
    lemma_line_ends_read_back(text, ending);
    let rest = lemma_body_starts(ending, rows, closed);
    let first = rows[0];
    assert(raw =~= front + body);
    assert(!front.contains('\n') && !front.contains('\r'));
    if rows.len() > 1 || closed {
        lemma_first_line_end(front, first, ending, rest);
        assert(raw =~= front + first + line_end(ending) + rest);
    } else {
        assert forall|i: int| 0 <= i < raw.len() implies raw[i] != '\n' by {
            if i >= front.len() {
                assert(raw[i] == first[i - front.len()]);
                assert(first.contains(first[i - front.len()]));
            }
        }
        lemma_find_char_is(raw, '\n', raw.len() as int);
    }
    lemma_mark_is_read(bom, body);
    if !bom {
        reveal_strlit("\n");
        reveal_strlit("\r\n");
        if first.len() > 0 {
            assert(body[0] == first[0]);
        } else if body.len() > 0 {
            assert(body[0] == line_end(ending)[0]);
        }
    }
}

proof fn lemma_mark_is_read(bom: bool, body: Seq<char>)
    ensures
        bom ==> (seq!['\u{FEFF}'] + body).skip(1) == body,
        !bom ==> Seq::<char>::empty() + body == body,
{
    assert((seq!['\u{FEFF}'] + body).skip(1) =~= body);
    assert(Seq::<char>::empty() + body =~= body);
}

/// A text ends its last line exactly where a line end is its last character.
pub proof fn lemma_last_line_end(text: Seq<char>, last: char)
    ensures
        has_final_newline(text.push('\n')),
        last != '\n' ==> !has_final_newline(text.push(last)),
        !has_final_newline(seq![]),
{
}

} // verus!
