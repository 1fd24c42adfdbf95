//! What a patch of hunks leaves behind and tells: the bytes of the file, and the facts
//! that a result shows.

use crate::bytes::binary_offset;
use crate::context::{titled_in, PlaceView};
use crate::hash::{hash_code, normal_hash};
use crate::hex::{hex_summary, spaced_hex};
use crate::json::{field, text_at, JsonView, NumberView};
use crate::patch::apply::{
    byte_patch_file, hash_fault, patch_plan, patch_result, request_fault, text_patch_file,
    PatchFileView, PatchMode,
};
use crate::patch::byte_laws;
use crate::patch::bytes::BinaryAnchor;
use crate::patch::line_laws::{
    has_place, is_hunk, lemma_hunk_changes_its_place, lemma_hunks_read_back, lines_before,
    lines_taken, written_hunks,
};
use crate::patch::lines::{body_text, HunkView};
use crate::shape::{
    are_bare, lemma_shape_is_kept, lemma_shape_is_read, lines_text, shaped_text, LineEnding,
    TextShapeView,
};
use crate::text::number::dec;
use crate::text::split::{join, trim};
use vstd::prelude::*;
use vstd::utf8::encode_utf8;

verus! {

/// The lines of a file with a hunk in its place.
pub open spec fn with_hunk(h: HunkView, rows: Seq<Seq<char>>) -> Seq<Seq<char>> {
    let s = lines_before(h.anchor, rows.len() as int);
    rows.take(s) + body_text(h.body, rows)->Ok_0 + rows.skip(s + lines_taken(h.anchor))
}

/// A text file that a hunk is applied to has the lines of the hunk in its place, every
/// other line as it was, and the byte order mark and the line ends that it had. Its hash
/// is told where that is asked for.
pub proof fn lemma_patched_file_keeps_its_shape(
    place: PlaceView,
    path: Seq<char>,
    bom: bool,
    ending: LineEnding,
    rows: Seq<Seq<char>>,
    closed: bool,
    h: HunkView,
    hash_check: bool,
    given: Option<Seq<char>>,
)
    requires
        are_bare(rows),
        rows.len() > 1 || (rows.len() == 1 && rows[0].len() > 0),
        rows.len() > 1 || closed || ending is Lf,
        closed || rows.last().len() > 0,
        !bom ==> rows[0].len() == 0 || rows[0][0] != '\u{FEFF}',
        binary_offset(encode_utf8(shaped_text(bom, ending, rows, closed))) is None,
        is_hunk(h),
        h.order == 0,
        has_place(h.anchor, rows.len() as int),
        body_text(h.body, rows) is Ok,
        are_bare(with_hunk(h, rows)),
        hash_check ==> hash_fault(
            path,
            given,
            encode_utf8(shaped_text(bom, ending, rows, closed)),
        ) is None,
    ensures
        ({
            let before = encode_utf8(shaped_text(bom, ending, rows, closed));
            let after = encode_utf8(shaped_text(bom, ending, with_hunk(h, rows), closed));
            let patch = join(written_hunks(seq![h]), "\n"@);
            &&& patch_plan(
                place,
                path,
                before,
                patch,
                PatchMode::Text,
                hash_check,
                given,
            ) matches Ok(done)
            &&& done.0 == after
            &&& hash_check ==> text_at(done.1.metadata, "hashCode"@) == Some(hash_code(after))
            &&& !hash_check ==> field(done.1.metadata, "hashCode"@) is None
        }),
{
    let hunks = seq![h];
    lemma_hunks_read_back(hunks);
    assert forall|i: int| 0 <= i < rows.len() implies !(#[trigger] rows[i]).contains('\n') by {}
    lemma_shape_is_read(bom, ending, rows, closed);
    lemma_hunk_changes_its_place(rows, closed, h);
    let shape = TextShapeView { bom, line_ending: ending, text: lines_text(rows, closed) };
    lemma_shape_is_kept(shape, with_hunk(h, rows), closed);
    lemma_names_differ();
}

/// A binary file that a hunk is applied to has the bytes of the hunk in its place and
/// every other byte as it was.
pub proof fn lemma_patched_bytes_change_in_place(
    place: PlaceView,
    path: Seq<char>,
    bytes: Seq<u8>,
    anchor: BinaryAnchor,
    chunks: Seq<Seq<u8>>,
)
    requires
        byte_laws::is_hunk(anchor, chunks),
    ensures
        ({
            let total = bytes.len() as int;
            let s = byte_laws::hunk_start(anchor, total);
            let patch = join(byte_laws::written_hunk(anchor, chunks), "\n"@);
            let plan = patch_plan(place, path, bytes, patch, PatchMode::Binary, false, None);
            &&& plan is Ok <==> byte_laws::has_place(anchor, total)
            &&& plan is Ok ==> plan->Ok_0.0 == bytes.take(s) + byte_laws::all_bytes(chunks)
                + bytes.skip(s + byte_laws::hunk_takes(anchor, total))
        }),
{
    byte_laws::lemma_byte_hunk_changes_its_place(bytes, anchor, chunks);
    let (anchors, bodies) = (seq![anchor], seq![chunks]);
    byte_laws::lemma_byte_hunks_read_back(anchors, bodies);
    reveal_with_fuel(byte_laws::written_hunks, 2);
    assert(anchors.drop_first() =~= seq![]);
    assert(byte_laws::written_hunks(anchors, bodies) =~= byte_laws::written_hunk(anchor, chunks));
}

/// A file whose hash is asked for is touched if and only if the hash that was given is
/// its own.
pub proof fn lemma_wrong_hash_is_refused(
    place: PlaceView,
    path: Seq<char>,
    before: Seq<u8>,
    patch: Seq<char>,
    mode: PatchMode,
    given: Seq<char>,
)
    ensures
        hash_fault(path, Some(given), before) is None <==> normal_hash(given) == Some(
            hash_code(before),
        ),
        normal_hash(given) != Some(hash_code(before)) ==> patch_plan(
            place,
            path,
            before,
            patch,
            mode,
            true,
            Some(given),
        ) is Err,
        patch_plan(place, path, before, patch, mode, false, Some(given)) == patch_plan(
            place,
            path,
            before,
            patch,
            mode,
            false,
            None,
        ),
{
}

/// A request is refused that holds no patch, or no hash where one is asked for, and no
/// other.
pub proof fn lemma_requests_that_are_refused(
    patch: Seq<char>,
    hash_check: bool,
    hash: Option<Seq<char>>,
)
    ensures
        request_fault(patch, hash_check, hash) is Some <==> trim(patch).len() == 0 || (hash_check
            && (hash is None || trim(hash->Some_0).len() == 0)),
{
    reveal_strlit("");
    assert(trim(""@) =~= ""@);
}

proof fn lemma_names_differ()
    ensures
        "filePath"@.len() == 8,
        "relativePath"@.len() == 12,
        "type"@.len() == 4,
        "diff"@.len() == 4,
        "file"@.len() == 4,
        "additions"@.len() == 9,
        "deletions"@.len() == 9,
        "diagnostics"@.len() == 11,
        "hashCode"@.len() == 8,
        "type"@[0] == 't',
        "diff"@[0] == 'd',
        "file"@[0] == 'f',
        "additions"@[0] == 'a',
        "deletions"@[0] == 'd',
        "hashCode"@[0] == 'h',
{
    reveal_strlit("filePath");
    reveal_strlit("relativePath");
    reveal_strlit("type");
    reveal_strlit("diff");
    reveal_strlit("file");
    reveal_strlit("additions");
    reveal_strlit("deletions");
    reveal_strlit("diagnostics");
    reveal_strlit("hashCode");
}

/// A result tells the diff, the file, its kind and how much came and went, each under its
/// name, the hash where one is told, and nothing of what the whole file held or holds.
pub proof fn lemma_patch_is_told(f: PatchFileView, hash: Option<Seq<char>>)
    requires
        0 <= f.additions <= u64::MAX,
        0 <= f.deletions <= u64::MAX,
    ensures
        ({
            let r = patch_result(f, hash);
            &&& r.title == r.output
            &&& hash is None ==> r.output == "Success. Updated file:\nM "@ + f.relative_path
            &&& hash matches Some(h) ==> r.output == "Success. Updated file:\nM "@ + f.relative_path
                + "\nhashCode: "@ + h
            &&& text_at(r.metadata, "hashCode"@) == hash
            &&& text_at(r.metadata, "diff"@) == Some(f.diff)
            &&& field(r.metadata, "file"@) matches Some(file)
            &&& text_at(file, "filePath"@) == Some(f.file_path)
            &&& text_at(file, "relativePath"@) == Some(f.relative_path)
            &&& text_at(file, "type"@) == Some(f.kind)
            &&& text_at(file, "diff"@) == Some(f.diff)
            &&& field(file, "additions"@) == Some(
                JsonView::Number(NumberView::Unsigned(f.additions as u64)),
            )
            &&& field(file, "deletions"@) == Some(
                JsonView::Number(NumberView::Unsigned(f.deletions as u64)),
            )
        }),
{
    lemma_names_differ();
}

/// Two patches that tell the same diff of the same file are told alike, whatever the
/// file held before and holds after.
pub proof fn lemma_contents_are_not_told(
    f: PatchFileView,
    before: Seq<char>,
    after: Seq<char>,
    hash: Option<Seq<char>>,
)
    ensures
        patch_result(f, hash) == patch_result(PatchFileView { before, after, ..f }, hash),
{
}

/// A summary of bytes shows the first of them, and says where there are more.
pub proof fn lemma_summary_shows_the_first_bytes(b: Seq<u8>)
    ensures
        b.len() <= 128 ==> hex_summary(b) == spaced_hex(b),
        b.len() > 128 ==> hex_summary(b) == spaced_hex(b.take(128)) + " ..."@,
{
}

/// The summary of a binary change tells both sizes and the first bytes of both.
pub proof fn lemma_binary_change_is_told(
    place: PlaceView,
    path: Seq<char>,
    before: Seq<u8>,
    after: Seq<u8>,
)
    ensures
        ({
            let f = byte_patch_file(place, path, before, after);
            &&& f.file_path == path
            &&& f.relative_path == titled_in(place, path)
            &&& f.additions == after.len()
            &&& f.deletions == before.len()
            &&& f.kind == "binary-update"@
            &&& f.diff == "Binary update: "@ + path + "\n- "@ + dec(before.len()) + " bytes: "@
                + hex_summary(before) + "\n+ "@ + dec(after.len()) + " bytes: "@ + hex_summary(
                after,
            ) + "\n"@
        }),
{
}

/// A text file that was patched is told as updated where it stands, with both texts, the
/// diff, and the lines that the diff marks as added and as taken away.
pub proof fn lemma_text_change_is_told(
    place: PlaceView,
    path: Seq<char>,
    before: Seq<char>,
    after: Seq<char>,
    diff: Seq<char>,
)
    ensures
        ({
            let f = text_patch_file(place, path, before, after, diff);
            &&& f.kind == "update"@
            &&& f.file_path == path
            &&& f.relative_path == crate::context::titled_in(place, path)
            &&& f.before == before && f.after == after && f.diff == diff
            &&& f.additions == crate::diff::count_marked(crate::text::split::lines(diff), '+')
            &&& f.deletions == crate::diff::count_marked(crate::text::split::lines(diff), '-')
        }),
{
}

} // verus!
