//! Creating, deleting, renaming and patching one file.
//!
//! A text patch is a unified diff or a list of line instructions, a binary patch
//! a list of hunks or of spans. The functions here work out what a file becomes
//! and what is told about it; reading and writing the file is up to the caller.

pub mod binary_patch;
pub mod instruction_laws;
pub mod line_laws;
pub mod line_patch;
pub mod result_laws;
pub mod span_laws;

use crate::context::{resolved_in, titled_in, PlaceView, ToolContext};
use crate::diff::{
    apply_unified_diff, count_diff_lines, count_marked, diff_text, named_diff, patched_by_diff,
    unified_diff,
};
use crate::error::Error;
use crate::hash::{hash_bytes, hash_code};
use crate::hex::{decode_hex, hex_bytes};
use crate::json::{put, Json, JsonView};
pub use crate::patch::apply::PatchMode;
use crate::patch::apply::{check_hash, count_json, hash_fault, is_blank_text};
use crate::patch::{has_envelope, opens_envelope};
use crate::protocol::{opt_text, output_of, tool_output, ToolResult, ToolResultView};
use crate::shape::{raw_text, shape_of, TextShape};
use crate::text::split::{is_blank, lines as lines_of, starts, starts_with};
use crate::text::{chars_of, owned, same_text};
use crate::tools::file_action::binary_patch::{apply_binary_patch, binary_patched};
use crate::tools::file_action::line_patch::{
    apply_line_patch, line_ops, line_patched, parse_line_patch,
};
use vstd::prelude::*;
use vstd::utf8::encode_utf8;

verus! {

#[derive(Clone, Copy, Debug, PartialEq, Eq, Structural)]
pub enum FileActionMode {
    Patch,
    Create,
    Delete,
    Rename,
}

/// A request to act on one file.
#[derive(Debug)]
pub struct FileActionOptions {
    pub mode: FileActionMode,
    pub file_path: String,
    pub new_file_path: Option<String>,
    pub patch_text: Option<String>,
    pub content: Option<String>,
    pub patch_mode: PatchMode,
    pub hash_check_mode: bool,
    pub hash_code: Option<String>,
}

/// What is told about a file that was acted on.
#[derive(Debug)]
pub struct PatchFile {
    pub file_path: String,
    pub relative_path: String,
    pub new_file_path: Option<String>,
    pub new_relative_path: Option<String>,
    pub kind: String,
    pub additions: usize,
    pub deletions: usize,
}

#[verifier::ext_equal]
pub struct PatchFileView {
    pub file_path: Seq<char>,
    pub relative_path: Seq<char>,
    pub new_file_path: Option<Seq<char>>,
    pub new_relative_path: Option<Seq<char>>,
    pub kind: Seq<char>,
    pub additions: int,
    pub deletions: int,
}

impl View for PatchFile {
    type V = PatchFileView;

    open spec fn view(&self) -> PatchFileView {
        PatchFileView {
            file_path: self.file_path@,
            relative_path: self.relative_path@,
            new_file_path: opt_text(self.new_file_path),
            new_relative_path: opt_text(self.new_relative_path),
            kind: self.kind@,
            additions: self.additions as int,
            deletions: self.deletions as int,
        }
    }
}

// ---------------------------------------------------------------------------
// What is told
// ---------------------------------------------------------------------------
/// The facts about a file that keeps its place.
pub open spec fn file_facts(
    place: PlaceView,
    path: Seq<char>,
    kind: Seq<char>,
    additions: int,
    deletions: int,
) -> PatchFileView {
    PatchFileView {
        file_path: path,
        relative_path: titled_in(place, path),
        new_file_path: None,
        new_relative_path: None,
        kind,
        additions,
        deletions,
    }
}

pub fn action_file(
    ctx: &ToolContext,
    path: &str,
    kind: &str,
    additions: usize,
    deletions: usize,
) -> (r: PatchFile)
    ensures
        r@ == file_facts(ctx@, path@, kind@, additions as int, deletions as int),
{
    PatchFile {
        file_path: owned(path),
        relative_path: ctx.title(path),
        new_file_path: None,
        new_relative_path: None,
        kind: owned(kind),
        additions,
        deletions,
    }
}

/// The facts about a file that moved.
pub open spec fn rename_facts(place: PlaceView, from: Seq<char>, to: Seq<char>) -> PatchFileView {
    PatchFileView {
        file_path: from,
        relative_path: titled_in(place, from),
        new_file_path: Some(to),
        new_relative_path: Some(titled_in(place, to)),
        kind: "rename"@,
        additions: 0,
        deletions: 0,
    }
}

pub fn rename_file(ctx: &ToolContext, from: &str, to: &str) -> (r: PatchFile)
    ensures
        r@ == rename_facts(ctx@, from@, to@),
{
    PatchFile {
        file_path: owned(from),
        relative_path: ctx.title(from),
        new_file_path: Some(owned(to)),
        new_relative_path: Some(ctx.title(to)),
        kind: owned("rename"),
        additions: 0,
        deletions: 0,
    }
}

/// The facts about a text file whose change a diff shows.
pub open spec fn diff_facts(place: PlaceView, path: Seq<char>, diff: Seq<char>) -> PatchFileView {
    file_facts(
        place,
        path,
        "update"@,
        count_marked(lines_of(diff), '+') as int,
        count_marked(lines_of(diff), '-') as int,
    )
}

pub fn patch_file(ctx: &ToolContext, path: &str, diff: &str) -> (r: PatchFile)
    ensures
        r@ == diff_facts(ctx@, path@, diff@),
{
    let additions: usize = count_diff_lines(diff, '+');
    let deletions: usize = count_diff_lines(diff, '-');
    action_file(ctx, path, "update", additions, deletions)
}

pub open spec fn facts_json(f: PatchFileView) -> JsonView {
    let base = Map::empty().insert("filePath"@, JsonView::Text(f.file_path)).insert(
        "relativePath"@,
        JsonView::Text(f.relative_path),
    ).insert("type"@, JsonView::Text(f.kind)).insert("additions"@, count_json(f.additions)).insert(
        "deletions"@,
        count_json(f.deletions),
    );
    let moved = match f.new_file_path {
        Some(p) => base.insert("newFilePath"@, JsonView::Text(p)),
        None => base,
    };
    JsonView::Object(
        match f.new_relative_path {
            Some(p) => moved.insert("newRelativePath"@, JsonView::Text(p)),
            None => moved,
        },
    )
}

fn facts_value(f: &PatchFile) -> (r: Json)
    ensures
        r@ == facts_json(f@),
{
    let mut e: Vec<(String, Json)> = Vec::new();
    put(&mut e, "filePath", Json::text(f.file_path.as_str()));
    put(&mut e, "relativePath", Json::text(f.relative_path.as_str()));
    put(&mut e, "type", Json::text(f.kind.as_str()));
    put(&mut e, "additions", Json::count(f.additions as u64));
    put(&mut e, "deletions", Json::count(f.deletions as u64));
    match &f.new_file_path {
        Some(p) => {
            put(&mut e, "newFilePath", Json::text(p.as_str()));
        },
        None => {},
    }
    match &f.new_relative_path {
        Some(p) => {
            put(&mut e, "newRelativePath", Json::text(p.as_str()));
        },
        None => {},
    }
    Json::Object(e)
}

pub open spec fn headline(f: PatchFileView) -> Seq<char> {
    if f.kind == "create"@ {
        "Success. Created file:\nC "@ + f.relative_path
    } else if f.kind == "delete"@ {
        "Success. Deleted file:\nD "@ + f.relative_path
    } else if f.kind == "rename"@ {
        "Success. Renamed file:\nR "@ + f.relative_path + " -> "@ + (match f.new_relative_path {
            Some(p) => p,
            None => ""@,
        })
    } else {
        "Success. Updated file:\nM "@ + f.relative_path
    }
}

/// The result that tells about a file, with its hash where one is told.
pub open spec fn action_result(f: PatchFileView, hash: Option<Seq<char>>) -> ToolResultView {
    let text = match hash {
        Some(h) => headline(f) + "\nhashCode: "@ + h,
        None => headline(f),
    };
    let fields = Map::empty().insert("file"@, facts_json(f)).insert(
        "diagnostics"@,
        JsonView::Object(Map::empty()),
    );
    ToolResultView {
        metadata: JsonView::Object(
            match hash {
                Some(h) => fields.insert("hashCode"@, JsonView::Text(h)),
                None => fields,
            },
        ),
        output: output_of(""@, text, ""@),
    }
}

fn headline_text(f: &PatchFile) -> (r: String)
    ensures
        r@ == headline(f@),
{
    let mut out = String::new();
    if same_text(f.kind.as_str(), "create") {
        out = owned("Success. Created file:\nC ");
        out.append(f.relative_path.as_str());
    } else if same_text(f.kind.as_str(), "delete") {
        out = owned("Success. Deleted file:\nD ");
        out.append(f.relative_path.as_str());
    } else if same_text(f.kind.as_str(), "rename") {
        out = owned("Success. Renamed file:\nR ");
        out.append(f.relative_path.as_str());
        out.append(" -> ");
        match &f.new_relative_path {
            Some(p) => {
                out.append(p.as_str());
            },
            None => {
                out.append("");
            },
        }
    } else {
        out = owned("Success. Updated file:\nM ");
        out.append(f.relative_path.as_str());
    }
    out
}

pub fn result_from_file(file: PatchFile, hash: Option<String>) -> (r: ToolResult)
    ensures
        r@ == action_result(file@, opt_text(hash)),
{
    let mut text = headline_text(&file);
    match &hash {
        Some(h) => {
            text.append("\nhashCode: ");
            text.append(h.as_str());
        },
        None => {},
    }
    let mut e: Vec<(String, Json)> = Vec::new();
    put(&mut e, "file", facts_value(&file));
    put(&mut e, "diagnostics", Json::empty());
    match hash {
        Some(h) => {
            put(&mut e, "hashCode", Json::Text(h));
        },
        None => {},
    }
    ToolResult { metadata: Json::Object(e), output: tool_output(text) }
}

// ---------------------------------------------------------------------------
// Text patches
// ---------------------------------------------------------------------------
/// Whether a patch is a unified diff: it opens with a file header or a hunk.
pub open spec fn is_unified(patch: Seq<char>) -> bool {
    starts(patch, "@@"@) || starts(patch, "---"@) || starts(patch, "diff --git "@)
}

/// A unified diff with file headers of its own where it has none.
pub open spec fn with_headers(patch: Seq<char>) -> Seq<char> {
    if starts(patch, "@@"@) {
        "--- original\n+++ modified\n"@ + patch
    } else {
        patch
    }
}

/// A text with a patch of either form applied, or what stands in the way.
pub open spec fn text_patched(text: Seq<char>, patch: Seq<char>) -> Result<Seq<char>, Seq<char>> {
    if has_envelope(patch) {
        Err("old patch envelope format is not supported"@)
    } else if is_unified(patch) {
        patched_by_diff(text, with_headers(patch))
    } else {
        match line_ops(patch) {
            Err(m) => Err(m),
            Ok(ops) => if ops.len() == 0 {
                Err("patchText did not contain any line patch instructions"@)
            } else {
                line_patched(text, ops)
            },
        }
    }
}

/// Applies a patch of either form to a text.
pub fn apply_text_patch(before_text: &str, patch_text: &str) -> (r: Result<String, Error>)
    ensures
        match r {
            Ok(out) => text_patched(before_text@, patch_text@) == Ok::<Seq<char>, Seq<char>>(out@),
            Err(e) => text_patched(before_text@, patch_text@) == Err::<Seq<char>, Seq<char>>(e@),
        },
{
    let patch = chars_of(patch_text);
    if opens_envelope(patch.as_slice()) {
        return Err(Error::of("old patch envelope format is not supported"));
    }
    if starts_with(patch.as_slice(), "@@") {
        let mut full = owned("--- original\n+++ modified\n");
        full.append(patch_text);
        return apply_unified_diff(before_text, full.as_str());
    }
    if starts_with(patch.as_slice(), "---") || starts_with(patch.as_slice(), "diff --git ") {
        return apply_unified_diff(before_text, patch_text);
    }
    let ops = match parse_line_patch(patch_text) {
        Ok(ops) => ops,
        Err(e) => {
            return Err(e);
        },
    };
    if ops.len() == 0 {
        return Err(Error::of("patchText did not contain any line patch instructions"));
    }
    apply_line_patch(before_text, ops.as_slice())
}

// ---------------------------------------------------------------------------
// The four actions
// ---------------------------------------------------------------------------
/// The patch that a request holds.
pub open spec fn wanted_patch(patch_text: Option<Seq<char>>) -> Option<Seq<char>> {
    match patch_text {
        Some(p) => if is_blank_text(p) {
            None
        } else {
            Some(p)
        },
        None => None,
    }
}

/// Checks, before the file is read, that a request to patch holds a patch.
pub fn required_patch_text(options: &FileActionOptions) -> (r: Result<&str, Error>)
    ensures
        match r {
            Ok(p) => wanted_patch(opt_text(options.patch_text)) == Some(p@),
            Err(e) => wanted_patch(opt_text(options.patch_text)) is None && e@
                == "patchText is required for mode=patch"@,
        },
{
    match &options.patch_text {
        Some(p) => {
            let all = chars_of(p.as_str());
            if is_blank(all.as_slice()) {
                return Err(Error::of("patchText is required for mode=patch"));
            }
            Ok(p.as_str())
        },
        None => Err(Error::of("patchText is required for mode=patch")),
    }
}

/// Why a file whose hash is asked for may not be touched.
pub open spec fn guard_fault(
    path: Seq<char>,
    hash_check: bool,
    given: Option<Seq<char>>,
    before: Seq<u8>,
) -> Option<Seq<char>> {
    if hash_check {
        hash_fault(path, given, before)
    } else {
        None
    }
}

/// Checks the hash of a file where the request asks for it.
pub fn guard_hash(target: &str, options: &FileActionOptions, before: &[u8]) -> (r: Result<
    (),
    Error,
>)
    ensures
        ({
            let fault = guard_fault(
                target@,
                options.hash_check_mode,
                opt_text(options.hash_code),
                before@,
            );
            match r {
                Ok(_) => fault is None,
                Err(e) => fault == Some(e@),
            }
        }),
{
    if options.hash_check_mode {
        check_hash(target, &options.hash_code, before)
    } else {
        Ok(())
    }
}

pub open spec fn told_hash(hash_check: bool, bytes: Seq<u8>) -> Option<Seq<char>> {
    if hash_check {
        Some(hash_code(bytes))
    } else {
        None
    }
}

/// Whether a hash lets a guarded change of these bytes through, whatever file
/// they are in.
pub open spec fn opens(hash: Seq<char>, bytes: Seq<u8>) -> bool {
    forall|path: Seq<char>| (#[trigger] guard_fault(path, true, Some(hash), bytes)) is None
}

fn tell_hash(hash_check: bool, bytes: &[u8]) -> (r: Option<String>)
    ensures
        opt_text(r) == told_hash(hash_check, bytes@),
        hash_check ==> opens(hash_code(bytes@), bytes@),
{
    if hash_check {
        Some(hash_bytes(bytes))
    } else {
        None
    }
}

/// The bytes that a patched file gets and what is told about it.
pub open spec fn patch_outcome(
    place: PlaceView,
    path: Seq<char>,
    before: Seq<u8>,
    patch: Seq<char>,
    mode: PatchMode,
    hash_check: bool,
) -> Result<(Seq<u8>, ToolResultView), Seq<char>> {
    match mode {
        PatchMode::Text => match shape_of(before) {
            Err(m) => Err(m),
            Ok(shape) => match text_patched(shape.text, patch) {
                Err(m) => Err(m),
                Ok(text) => {
                    let after = encode_utf8(raw_text(shape, text));
                    let diff = named_diff(unified_diff(shape.text, text), path);
                    Ok(
                        (
                            after,
                            action_result(
                                diff_facts(place, path, diff),
                                told_hash(hash_check, after),
                            ),
                        ),
                    )
                },
            },
        },
        PatchMode::Binary => match binary_patched(before, patch) {
            Err(m) => Err(m),
            Ok(applied) => Ok(
                (
                    applied.bytes,
                    action_result(
                        file_facts(
                            place,
                            path,
                            "binary-update"@,
                            applied.additions,
                            applied.deletions,
                        ),
                        told_hash(hash_check, applied.bytes),
                    ),
                ),
            ),
        },
    }
}

/// Works out a patch for the file at `target`, which holds `before`: the bytes
/// to write and the result to return, or the error that leaves the file alone.
/// A hash that the result tells lets the next guarded change through.
pub fn patch_file_action(
    ctx: &ToolContext,
    target: &str,
    options: &FileActionOptions,
    patch_text: &str,
    before: Vec<u8>,
) -> (r: Result<(Vec<u8>, ToolResult), Error>)
    ensures
        ({
            let fault = guard_fault(
                target@,
                options.hash_check_mode,
                opt_text(options.hash_code),
                before@,
            );
            let outcome = patch_outcome(
                ctx@,
                target@,
                before@,
                patch_text@,
                options.patch_mode,
                options.hash_check_mode,
            );
            match r {
                Ok((bytes, result)) => fault is None && outcome == Ok::<
                    (Seq<u8>, ToolResultView),
                    Seq<char>,
                >((bytes@, result@)),
                Err(e) => fault == Some(e@) || (fault is None && outcome == Err::<
                    (Seq<u8>, ToolResultView),
                    Seq<char>,
                >(e@)),
            }
        }),
        options.hash_check_mode ==> (r matches Ok(done) ==> opens(hash_code(done.0@), done.0@)),
{
    match guard_hash(target, options, before.as_slice()) {
        Ok(_) => {},
        Err(e) => {
            return Err(e);
        },
    }
    match options.patch_mode {
        PatchMode::Text => {
            let shape = match TextShape::from_bytes(before) {
                Ok(shape) => shape,
                Err(e) => {
                    return Err(e);
                },
            };
            let text = match apply_text_patch(shape.text.as_str(), patch_text) {
                Ok(text) => text,
                Err(e) => {
                    return Err(e);
                },
            };
            let after = shape.encode(text.as_str());
            let diff = diff_text(target, shape.text.as_str(), text.as_str());
            let file = patch_file(ctx, target, diff.as_str());
            let hash = tell_hash(options.hash_check_mode, after.as_slice());
            Ok((after, result_from_file(file, hash)))
        },
        PatchMode::Binary => {
            let applied = match apply_binary_patch(before.as_slice(), patch_text) {
                Ok(applied) => applied,
                Err(e) => {
                    return Err(e);
                },
            };
            let file = action_file(
                ctx,
                target,
                "binary-update",
                applied.additions,
                applied.deletions,
            );
            let hash = tell_hash(options.hash_check_mode, applied.bytes.as_slice());
            Ok((applied.bytes, result_from_file(file, hash)))
        },
    }
}

/// The bytes of a new file.
pub open spec fn created_bytes(
    path: Seq<char>,
    exists_already: bool,
    content: Option<Seq<char>>,
    mode: PatchMode,
) -> Result<Seq<u8>, Seq<char>> {
    if exists_already {
        Err("cannot create existing file: "@ + path)
    } else {
        match content {
            None => Err("content is required for mode=create"@),
            Some(c) => match mode {
                PatchMode::Text => Ok(encode_utf8(c)),
                PatchMode::Binary => hex_bytes(c),
            },
        }
    }
}

/// Works out a new file at `target`: its bytes and the result to return. A hash
/// that the result tells lets the next guarded change through.
pub fn create_file_action(
    ctx: &ToolContext,
    target: &str,
    options: &FileActionOptions,
    exists_already: bool,
) -> (r: Result<(Vec<u8>, ToolResult), Error>)
    ensures
        ({
            let wanted = created_bytes(
                target@,
                exists_already,
                opt_text(options.content),
                options.patch_mode,
            );
            match r {
                Ok((bytes, result)) => wanted == Ok::<Seq<u8>, Seq<char>>(bytes@) && result@
                    == action_result(
                    file_facts(ctx@, target@, "create"@, bytes@.len() as int, 0),
                    told_hash(options.hash_check_mode, bytes@),
                ),
                Err(e) => wanted == Err::<Seq<u8>, Seq<char>>(e@),
            }
        }),
        options.hash_check_mode ==> (r matches Ok(done) ==> opens(hash_code(done.0@), done.0@)),
{
    if exists_already {
        let mut m = owned("cannot create existing file: ");
        m.append(target);
        return Err(Error::new(m));
    }
    let content = match &options.content {
        Some(c) => c,
        None => {
            return Err(Error::of("content is required for mode=create"));
        },
    };
    let bytes = match options.patch_mode {
        PatchMode::Text => crate::bytes::utf8_of(content.as_str()),
        PatchMode::Binary => {
            let all = chars_of(content.as_str());
            match decode_hex(all.as_slice()) {
                Ok(b) => b,
                Err(e) => {
                    return Err(e);
                },
            }
        },
    };
    let file = action_file(ctx, target, "create", bytes.len(), 0);
    let hash = tell_hash(options.hash_check_mode, bytes.as_slice());
    Ok((bytes, result_from_file(file, hash)))
}

/// Works out the deletion of the file at `target`, which holds `before`.
pub fn delete_file_action(
    ctx: &ToolContext,
    target: &str,
    options: &FileActionOptions,
    before: &[u8],
) -> (r: Result<ToolResult, Error>)
    ensures
        ({
            let fault = guard_fault(
                target@,
                options.hash_check_mode,
                opt_text(options.hash_code),
                before@,
            );
            match r {
                Ok(result) => fault is None && result@ == action_result(
                    file_facts(ctx@, target@, "delete"@, 0, before@.len() as int),
                    None,
                ),
                Err(e) => fault == Some(e@),
            }
        }),
{
    match guard_hash(target, options, before) {
        Ok(_) => {},
        Err(e) => {
            return Err(e);
        },
    }
    let file = action_file(ctx, target, "delete", 0, before.len());
    Ok(result_from_file(file, None))
}

/// The path that a rename leads to, or why there is none.
pub open spec fn rename_target(
    place: PlaceView,
    path: Seq<char>,
    hash_check: bool,
    given: Option<Seq<char>>,
    before: Seq<u8>,
    new_path: Option<Seq<char>>,
) -> Result<Seq<char>, Seq<char>> {
    match guard_fault(path, hash_check, given, before) {
        Some(m) => Err(m),
        None => match new_path {
            None => Err("newFilePath is required for mode=rename"@),
            Some(p) => Ok(resolved_in(place, p)),
        },
    }
}

/// Finds where the file at `target`, which holds `before`, is to go.
pub fn rename_destination(
    ctx: &ToolContext,
    target: &str,
    options: &FileActionOptions,
    before: &[u8],
) -> (r: Result<String, Error>)
    ensures
        ({
            let wanted = rename_target(
                ctx@,
                target@,
                options.hash_check_mode,
                opt_text(options.hash_code),
                before@,
                opt_text(options.new_file_path),
            );
            match r {
                Ok(p) => wanted == Ok::<Seq<char>, Seq<char>>(p@),
                Err(e) => wanted == Err::<Seq<char>, Seq<char>>(e@),
            }
        }),
{
    match guard_hash(target, options, before) {
        Ok(_) => {},
        Err(e) => {
            return Err(e);
        },
    }
    match &options.new_file_path {
        Some(p) => Ok(ctx.resolve(p.as_str())),
        None => Err(Error::of("newFilePath is required for mode=rename")),
    }
}

/// Works out the rename of the file at `target` to `destination`. A hash that the
/// result tells lets the next guarded change through.
pub fn rename_file_action(
    ctx: &ToolContext,
    target: &str,
    destination: &str,
    destination_exists: bool,
    options: &FileActionOptions,
    before: &[u8],
) -> (r: Result<ToolResult, Error>)
    ensures
        match r {
            Ok(result) => !destination_exists && result@ == action_result(
                rename_facts(ctx@, target@, destination@),
                told_hash(options.hash_check_mode, before@),
            ),
            Err(e) => destination_exists && e@ == "cannot rename over existing file: "@
                + destination@,
        },
        r is Ok && options.hash_check_mode ==> opens(hash_code(before@), before@),
{
    if destination_exists {
        let mut m = owned("cannot rename over existing file: ");
        m.append(destination);
        return Err(Error::new(m));
    }
    let file = rename_file(ctx, target, destination);
    let hash = tell_hash(options.hash_check_mode, before);
    Ok(result_from_file(file, hash))
}

// ---------------------------------------------------------------------------
// What results keep to themselves
// ---------------------------------------------------------------------------
/// A result about a patched text file shows nothing of the file but how many
/// lines the diff adds and takes away, and the hash where it is asked for: two
/// patches that agree in these are told alike.
pub proof fn lemma_result_hides_contents(
    place: PlaceView,
    path: Seq<char>,
    one: Seq<char>,
    other: Seq<char>,
    hash: Option<Seq<char>>,
)
    requires
        count_marked(lines_of(one), '+') == count_marked(lines_of(other), '+'),
        count_marked(lines_of(one), '-') == count_marked(lines_of(other), '-'),
    ensures
        action_result(diff_facts(place, path, one), hash) == action_result(
            diff_facts(place, path, other),
            hash,
        ),
{
}

} // verus!
