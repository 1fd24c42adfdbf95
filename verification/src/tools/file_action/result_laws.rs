//! What actions on files leave behind and tell: the bytes of the file, and the facts
//! that a result shows.

use crate::bytes::binary_offset;
use crate::context::{titled_in, PlaceView};
use crate::diff::{count_marked, patched_by_diff};
use crate::hash::{hash_code, normal_hash};
use crate::hex::{lemma_hex_reads_back, spaced_hex};
use crate::json::{field, text_at, JsonView, NumberView};
use crate::patch::apply::PatchMode;
use crate::patch::has_envelope;
use crate::protocol::lemma_output_shows;
use crate::shape::{
    are_bare, lemma_shape_is_kept, lemma_shape_is_read, lines_text, shaped_text, LineEnding,
    TextShapeView,
};
use crate::text::laws::{has_bare_ends, is_all_blank, lemma_trim_takes};
use crate::text::split::{lines as lines_of, starts};
use crate::tools::file_action::binary_patch::BinaryHunkView;
use crate::tools::file_action::instruction_laws::{
    asked_for, is_in_range, is_pad, is_unwrapped, is_writable, lemma_patched_file_has_asked_lines,
    patch_of,
};
use crate::tools::file_action::line_patch::LinePatchOpView;
use crate::tools::file_action::span_laws::{
    is_span, lemma_span_changes_its_place, span_fits, span_removes, span_start, spans_text,
};
use crate::tools::file_action::{
    action_result, created_bytes, diff_facts, file_facts, guard_fault, patch_outcome, rename_facts,
    rename_target, text_patched, wanted_patch, PatchFileView,
};
use vstd::prelude::*;
use vstd::utf8::encode_utf8;

verus! {

// ---------------------------------------------------------------------------
// The bytes of the file
// ---------------------------------------------------------------------------
/// The texts that an instruction brings have no carriage return in them.
pub open spec fn brings_bare(op: LinePatchOpView) -> bool {
    match op {
        LinePatchOpView::Append { lines, .. } => are_bare(lines),
        LinePatchOpView::Replace { text, .. } => !text.contains('\n') && !text.contains('\r'),
        _ => true,
    }
}

proof fn lemma_asked_are_bare(op: LinePatchOpView, rows: Seq<Seq<char>>)
    requires
        are_bare(rows),
        brings_bare(op),
        is_in_range(op, rows.len() as int),
    ensures
        are_bare(asked_for(op, rows)),
{
    let out = asked_for(op, rows);
    let n = rows.len() as int;
    assert forall|i: int| 0 <= i < out.len() implies !(#[trigger] out[i]).contains('\n')
        && !out[i].contains('\r') by {
        match op {
            LinePatchOpView::Delete { start, end } => {
                if i < start - 1 {
                    assert(out[i] == rows[i]);
                } else {
                    assert(out[i] == rows[i - (start - 1) + end]);
                }
            },
            LinePatchOpView::Append { after, lines } => {
                let b = crate::tools::file_action::instruction_laws::boundary_at(after, n);
                if i < b {
                    assert(out[i] == rows[i]);
                } else if i < b + lines.len() {
                    assert(out[i] == lines[i - b]);
                } else {
                    assert(out[i] == rows[i - lines.len()]);
                }
            },
            LinePatchOpView::Replace { line, text } => {
                if i != line - 1 {
                    assert(out[i] == rows[i]);
                }
            },
            LinePatchOpView::Move { start, end, after } => {
                let b = crate::tools::file_action::instruction_laws::boundary_at(after, n);
                let (s, e) = (start as int, end as int);
                let m = e - s + 1;
                if b < s {
                    if i < b {
                        assert(out[i] == rows[i]);
                    } else if i < b + m {
                        assert(out[i] == rows[i - b + s - 1]);
                    } else if i < e {
                        assert(out[i] == rows[i - m]);
                    } else {
                        assert(out[i] == rows[i]);
                    }
                } else {
                    if i < s - 1 {
                        assert(out[i] == rows[i]);
                    } else if i < s - 1 + (b - e) {
                        assert(out[i] == rows[i - (s - 1) + e]);
                    } else if i < b {
                        assert(out[i] == rows[i - (s - 1) - (b - e) + s - 1]);
                    } else {
                        assert(out[i] == rows[i]);
                    }
                }
            },
        }
    }
}

/// A text file that an instruction is carried out on has the lines that the instruction
/// asks for, each closed with the line end that the file uses, behind the byte order mark
/// that the file had; its hash is told where that is asked for.
pub proof fn lemma_patched_file_keeps_its_shape(
    place: PlaceView,
    path: Seq<char>,
    bom: bool,
    ending: LineEnding,
    rows: Seq<Seq<char>>,
    op: LinePatchOpView,
    pad: Seq<char>,
    hash_check: bool,
)
    requires
        are_bare(rows),
        brings_bare(op),
        rows.len() > 0,
        !bom ==> rows[0].len() == 0 || rows[0][0] != '\u{FEFF}',
        binary_offset(encode_utf8(shaped_text(bom, ending, rows, true))) is None,
        is_writable(op),
        is_unwrapped(op),
        is_pad(pad),
        is_in_range(op, rows.len() as int),
    ensures
        ({
            let before = encode_utf8(shaped_text(bom, ending, rows, true));
            let after = encode_utf8(shaped_text(bom, ending, asked_for(op, rows), true));
            &&& patch_outcome(
                place,
                path,
                before,
                patch_of(seq![op], pad),
                PatchMode::Text,
                hash_check,
            ) matches Ok(done)
            &&& done.0 == after
            &&& hash_check ==> text_at(done.1.metadata, "hashCode"@) == Some(hash_code(after))
            &&& !hash_check ==> field(done.1.metadata, "hashCode"@) is None
        }),
{
    assert forall|i: int| 0 <= i < rows.len() implies !(#[trigger] rows[i]).contains('\n') by {}
    lemma_shape_is_read(bom, ending, rows, true);
    lemma_patched_file_has_asked_lines(op, pad, rows, true);
    lemma_asked_are_bare(op, rows);
    let shape = TextShapeView { bom, line_ending: ending, text: lines_text(rows, true) };
    lemma_shape_is_kept(shape, asked_for(op, rows), true);
    lemma_result_fields_differ();
}

/// A binary file that a span is applied to has the bytes of the span in its place and
/// every other byte as it was; the result tells how many came and went.
pub proof fn lemma_patched_bytes_are_told(
    place: PlaceView,
    path: Seq<char>,
    bytes: Seq<u8>,
    h: BinaryHunkView,
    pad: Seq<char>,
    hash_check: bool,
)
    requires
        is_span(h),
        h.order == 0,
        is_pad(pad),
        span_fits(h, bytes.len() as int),
        bytes.len() <= u64::MAX,
        h.bytes.len() <= u64::MAX,
    ensures
        ({
            let s = span_start(h, bytes.len() as int);
            let after = bytes.take(s) + h.bytes + bytes.skip(s + span_removes(h));
            &&& patch_outcome(
                place,
                path,
                bytes,
                spans_text(seq![h], pad),
                PatchMode::Binary,
                hash_check,
            ) matches Ok(done)
            &&& done.0 == after
            &&& field(done.1.metadata, "file"@) matches Some(file)
            &&& field(file, "additions"@) == Some(
                JsonView::Number(NumberView::Unsigned(h.bytes.len() as u64)),
            )
            &&& field(file, "deletions"@) == Some(
                JsonView::Number(NumberView::Unsigned(span_removes(h) as u64)),
            )
            &&& text_at(file, "type"@) == Some("binary-update"@)
            &&& hash_check ==> text_at(done.1.metadata, "hashCode"@) == Some(hash_code(after))
        }),
{
    lemma_span_changes_its_place(bytes, h, pad);
    lemma_result_fields_differ();
}

/// A new file has the bytes of its content: those of the text, or those that the digits
/// write. A file that is there already is not replaced, and one without content is not
/// made.
pub proof fn lemma_created_file_has_its_content(
    path: Seq<char>,
    content: Option<Seq<char>>,
    bytes: Seq<u8>,
)
    ensures
        created_bytes(path, true, content, PatchMode::Text) is Err,
        created_bytes(path, true, content, PatchMode::Binary) is Err,
        created_bytes(path, false, None, PatchMode::Text) is Err,
        created_bytes(path, false, None, PatchMode::Binary) is Err,
        content matches Some(c) ==> created_bytes(path, false, content, PatchMode::Text) == Ok::<
            Seq<u8>,
            Seq<char>,
        >(encode_utf8(c)),
        created_bytes(path, false, Some(spaced_hex(bytes)), PatchMode::Binary) == Ok::<
            Seq<u8>,
            Seq<char>,
        >(bytes),
{
    lemma_hex_reads_back(bytes);
}

/// A guarded change is let through if and only if the hash that was given is that of the
/// file as it is; an unguarded one always is.
pub proof fn lemma_guard_lets_through(
    path: Seq<char>,
    given: Option<Seq<char>>,
    before: Seq<u8>,
)
    ensures
        guard_fault(path, false, given, before) is None,
        guard_fault(path, true, given, before) is None <==> given is Some && normal_hash(
            given->Some_0,
        ) == Some(hash_code(before)) || (given is None && normal_hash(""@) == Some(
            hash_code(before),
        )),
{
}

/// No hash is no hash of a file: a guarded change needs one.
pub proof fn lemma_guard_needs_a_hash(path: Seq<char>, before: Seq<u8>)
    ensures
        guard_fault(path, true, None, before) is Some,
{
    reveal_strlit("");
    reveal_strlit("sha256:");
    let t = crate::text::split::trim(""@);
    assert(""@.len() == 0);
    assert(t =~= ""@);
    assert(!starts(t, "sha256:"@));
}

/// A file is renamed to the path that the request names, seen from its directory.
pub proof fn lemma_renamed_where_asked(
    place: PlaceView,
    path: Seq<char>,
    hash_check: bool,
    given: Option<Seq<char>>,
    before: Seq<u8>,
    new_path: Option<Seq<char>>,
)
    ensures
        ({
            let r = rename_target(place, path, hash_check, given, before, new_path);
            &&& r is Ok <==> guard_fault(path, hash_check, given, before) is None && new_path is Some
            &&& r matches Ok(p) ==> p == crate::paths::join_path(
                place.windows,
                place.directory,
                new_path->Some_0,
            )
        }),
{
}

// ---------------------------------------------------------------------------
// What results tell
// ---------------------------------------------------------------------------
proof fn lemma_result_fields_differ()
    ensures
        "file"@.len() == 4,
        "diagnostics"@.len() == 11,
        "hashCode"@.len() == 8,
        "filePath"@.len() == 8,
        "relativePath"@.len() == 12,
        "type"@.len() == 4,
        "additions"@.len() == 9,
        "deletions"@.len() == 9,
        "newFilePath"@.len() == 11,
        "newRelativePath"@.len() == 15,
        "additions"@[0] == 'a',
        "deletions"@[0] == 'd',
{
    reveal_strlit("file");
    reveal_strlit("diagnostics");
    reveal_strlit("hashCode");
    reveal_strlit("filePath");
    reveal_strlit("relativePath");
    reveal_strlit("type");
    reveal_strlit("additions");
    reveal_strlit("deletions");
    reveal_strlit("newFilePath");
    reveal_strlit("newRelativePath");
}

/// The facts about a file are told each under its name; those about a new path where
/// there is one.
pub proof fn lemma_facts_are_told(f: PatchFileView, hash: Option<Seq<char>>)
    requires
        0 <= f.additions <= u64::MAX,
        0 <= f.deletions <= u64::MAX,
    ensures
        ({
            let r = action_result(f, hash);
            &&& text_at(r.metadata, "hashCode"@) == hash
            &&& field(r.metadata, "file"@) matches Some(file)
            &&& text_at(file, "filePath"@) == Some(f.file_path)
            &&& text_at(file, "relativePath"@) == Some(f.relative_path)
            &&& text_at(file, "type"@) == Some(f.kind)
            &&& text_at(file, "newFilePath"@) == f.new_file_path
            &&& text_at(file, "newRelativePath"@) == f.new_relative_path
            &&& field(file, "additions"@) == Some(
                JsonView::Number(NumberView::Unsigned(f.additions as u64)),
            )
            &&& field(file, "deletions"@) == Some(
                JsonView::Number(NumberView::Unsigned(f.deletions as u64)),
            )
        }),
{
    lemma_result_fields_differ();
}

proof fn lemma_kinds_differ()
    ensures
        "create"@ != "delete"@,
        "create"@ != "rename"@,
        "delete"@ != "rename"@,
        "update"@ != "create"@,
        "update"@ != "delete"@,
        "update"@ != "rename"@,
        "binary-update"@ != "create"@,
        "binary-update"@ != "delete"@,
        "binary-update"@ != "rename"@,
{
    reveal_strlit("create");
    reveal_strlit("delete");
    reveal_strlit("rename");
    reveal_strlit("update");
    reveal_strlit("binary-update");
    assert("create"@[0] == 'c' && "delete"@[0] == 'd' && "rename"@[0] == 'r' && "update"@[0] == 'u'
        && "binary-update"@[0] == 'b');
}

/// A result says in words what was done to which file, and its hash behind that where it
/// is told.
pub proof fn lemma_result_says_what_was_done(
    place: PlaceView,
    path: Seq<char>,
    to: Seq<char>,
    additions: int,
    deletions: int,
    hash: Seq<char>,
)
    ensures
        ({
            let shown = titled_in(place, path);
            let made = file_facts(place, path, "create"@, additions, deletions);
            let gone = file_facts(place, path, "delete"@, additions, deletions);
            let text = file_facts(place, path, "update"@, additions, deletions);
            let bytes = file_facts(place, path, "binary-update"@, additions, deletions);
            &&& text_at(action_result(made, None).output, "text"@) == Some(
                "Success. Created file:\nC "@ + shown,
            )
            &&& text_at(action_result(gone, None).output, "text"@) == Some(
                "Success. Deleted file:\nD "@ + shown,
            )
            &&& text_at(action_result(text, None).output, "text"@) == Some(
                "Success. Updated file:\nM "@ + shown,
            )
            &&& text_at(action_result(bytes, None).output, "text"@) == Some(
                "Success. Updated file:\nM "@ + shown,
            )
            &&& text_at(action_result(rename_facts(place, path, to), None).output, "text"@) == Some(
                "Success. Renamed file:\nR "@ + shown + " -> "@ + titled_in(place, to),
            )
            &&& text_at(action_result(text, Some(hash)).output, "text"@) == Some(
                "Success. Updated file:\nM "@ + shown + "\nhashCode: "@ + hash,
            )
        }),
{
    lemma_kinds_differ();
    let shown = titled_in(place, path);
    lemma_output_shows(""@, "Success. Created file:\nC "@ + shown, ""@);
    lemma_output_shows(""@, "Success. Deleted file:\nD "@ + shown, ""@);
    lemma_output_shows(""@, "Success. Updated file:\nM "@ + shown, ""@);
    lemma_output_shows(
        ""@,
        "Success. Renamed file:\nR "@ + shown + " -> "@ + titled_in(place, to),
        ""@,
    );
    lemma_output_shows(""@, "Success. Updated file:\nM "@ + shown + "\nhashCode: "@ + hash, ""@);
}

/// Lines that a diff adds or takes away are counted one by one: each line that starts
/// with the mark counts once, and the headers of files do not.
pub proof fn lemma_marked_lines_are_counted(a: Seq<Seq<char>>, b: Seq<Seq<char>>, mark: char)
    ensures
        count_marked(a + b, mark) == count_marked(a, mark) + count_marked(b, mark),
    decreases b.len(),
{
    if b.len() == 0 {
        assert(a + b =~= a);
    } else {
        lemma_marked_lines_are_counted(a, b.drop_last(), mark);
        assert((a + b).drop_last() =~= a + b.drop_last());
        assert((a + b).last() == b.last());
    }
}

/// One line of a diff counts as added where it starts with `+` and as taken away where
/// it starts with `-`, unless it is a header.
pub proof fn lemma_marked_line_counts_once(line: Seq<char>)
    ensures
        count_marked(seq!["+"@ + line], '+') == (if starts(line, "++"@) {
            0nat
        } else {
            1nat
        }),
        count_marked(seq!["-"@ + line], '-') == (if starts(line, "--"@) {
            0nat
        } else {
            1nat
        }),
        count_marked(seq!["+"@ + line], '-') == 0,
        count_marked(seq!["-"@ + line], '+') == 0,
        count_marked(seq![" "@ + line], '+') == 0,
        count_marked(seq![" "@ + line], '-') == 0,
{
    reveal_strlit("+");
    reveal_strlit("-");
    reveal_strlit(" ");
    reveal_strlit("++");
    reveal_strlit("--");
    reveal_strlit("+++");
    reveal_strlit("---");
    reveal_with_fuel(count_marked, 2);
    let (p, m, s) = ("+"@ + line, "-"@ + line, " "@ + line);
    assert(seq![p].drop_last() =~= seq![]);
    assert(seq![m].drop_last() =~= seq![]);
    assert(seq![s].drop_last() =~= seq![]);
    if starts(line, "++"@) {
        assert(p.take(3) =~= "+++"@) by {
            assert(line.take(2)[0] == line[0] && line.take(2)[1] == line[1]);
        }
    }
    if starts(p, "+++"@) {
        assert(p.take(3)[1] == p[1] && p.take(3)[2] == p[2]);
        assert(line.take(2) =~= "++"@);
    }
    if starts(p, "---"@) {
        assert(p.take(3)[0] == p[0]);
    }
    if starts(line, "--"@) {
        assert(m.take(3) =~= "---"@) by {
            assert(line.take(2)[0] == line[0] && line.take(2)[1] == line[1]);
        }
    }
    if starts(m, "---"@) {
        assert(m.take(3)[1] == m[1] && m.take(3)[2] == m[2]);
        assert(line.take(2) =~= "--"@);
    }
    if starts(m, "+++"@) {
        assert(m.take(3)[0] == m[0]);
    }
}

/// A patch that opens with a hunk or a file header is a diff, and gets the headers that a
/// diff needs where it opens with a hunk; in any other place none is added.
pub proof fn lemma_diffs_are_known(text: Seq<char>, rest: Seq<char>)
    ensures
        !has_envelope("@@"@ + rest) ==> text_patched(text, "@@"@ + rest) == patched_by_diff(
            text,
            "--- original\n+++ modified\n@@"@ + rest,
        ),
        !has_envelope("---"@ + rest) ==> text_patched(text, "---"@ + rest) == patched_by_diff(
            text,
            "---"@ + rest,
        ),
        !has_envelope("diff --git "@ + rest) ==> text_patched(text, "diff --git "@ + rest)
            == patched_by_diff(text, "diff --git "@ + rest),
{
    reveal_strlit("@@");
    reveal_strlit("---");
    reveal_strlit("diff --git ");
    reveal_strlit("--- original\n+++ modified\n");
    reveal_strlit("--- original\n+++ modified\n@@");
    let (a, b, c) = ("@@"@ + rest, "---"@ + rest, "diff --git "@ + rest);
    assert(a.take(2) =~= "@@"@);
    assert(b.take(3) =~= "---"@);
    assert(c.take(11) =~= "diff --git "@);
    assert(b.take(2)[0] == '-' && "@@"@[0] == '@');
    assert(c.take(2)[0] == 'd');
    assert("--- original\n+++ modified\n"@ + a =~= "--- original\n+++ modified\n@@"@ + rest);
}

/// A request to patch needs a patch that is not blank.
pub proof fn lemma_patch_is_needed(patch: Seq<char>)
    ensures
        wanted_patch(None) is None,
        is_all_blank(patch) ==> wanted_patch(Some(patch)) is None,
        patch.len() > 0 && has_bare_ends(patch) ==> wanted_patch(Some(patch)) == Some(patch),
{
    let no = Seq::<char>::empty();
    if is_all_blank(patch) {
        lemma_trim_takes(patch, no, no);
        assert(patch + no + no =~= patch);
    }
    if has_bare_ends(patch) {
        lemma_trim_takes(no, patch, no);
        assert(no + patch + no =~= patch);
    }
}

/// A text file that was patched is told as updated where it stands, with the lines that
/// the diff marks as added and as taken away.
pub proof fn lemma_patched_text_is_told(place: PlaceView, path: Seq<char>, diff: Seq<char>)
    ensures
        ({
            let f = diff_facts(place, path, diff);
            &&& f.kind == "update"@
            &&& f.file_path == path
            &&& f.relative_path == titled_in(place, path)
            &&& f.new_file_path is None && f.new_relative_path is None
            &&& f.additions == count_marked(lines_of(diff), '+')
            &&& f.deletions == count_marked(lines_of(diff), '-')
        }),
{
}

} // verus!
