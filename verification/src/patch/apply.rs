//! One patch applied to one file: what has to hold of the request, what the
//! file becomes, and what is told about it.

use crate::context::{titled_in, PlaceView, ToolContext};
use crate::diff::{count_diff_lines, count_marked, diff_text, named_diff, unified_diff};
use crate::error::Error;
use crate::hash::{hash_bytes, hash_code, normal_hash, normalize_hash_code};
use crate::hex::{bytes_hex, hex_summary};
use crate::json::{put, Json, JsonView, NumberView};
use crate::patch::bytes::{apply_binary_hunks, binary_hunks_of, parse_binary_patch, patched_bytes};
use crate::patch::lines::{apply_hunks, hunks_of, parse_line_patch, patched};
use crate::protocol::opt_text;
use crate::shape::{raw_text, shape_of, TextShape};
use crate::text::number::{append_dec, dec};
use crate::text::split::{is_blank, lines as lines_of, trim};
use crate::text::{chars_of, owned, same_text};
use vstd::prelude::*;
use vstd::utf8::encode_utf8;

verus! {

/// Whether a patch speaks of lines or of bytes.
#[derive(Clone, Copy, Debug, PartialEq, Eq, Structural)]
pub enum PatchMode {
    Text,
    Binary,
}

impl Default for PatchMode {
    fn default() -> (r: PatchMode)
        ensures
            r == PatchMode::Text,
    {
        PatchMode::Text
    }
}

/// A request to patch one file.
#[derive(Debug)]
pub struct ApplyOptions {
    pub file_path: String,
    pub patch_text: String,
    pub patch_mode: PatchMode,
    pub hash_check_mode: bool,
    pub hash_code: Option<String>,
}

/// What is told about a patched file.
#[derive(Debug)]
pub struct PatchFile {
    pub file_path: String,
    pub relative_path: String,
    pub kind: String,
    pub diff: String,
    pub before: String,
    pub after: String,
    pub additions: usize,
    pub deletions: usize,
}

#[verifier::ext_equal]
pub struct PatchFileView {
    pub file_path: Seq<char>,
    pub relative_path: Seq<char>,
    pub kind: Seq<char>,
    pub diff: Seq<char>,
    pub before: Seq<char>,
    pub after: Seq<char>,
    pub additions: int,
    pub deletions: int,
}

impl View for PatchFile {
    type V = PatchFileView;

    open spec fn view(&self) -> PatchFileView {
        PatchFileView {
            file_path: self.file_path@,
            relative_path: self.relative_path@,
            kind: self.kind@,
            diff: self.diff@,
            before: self.before@,
            after: self.after@,
            additions: self.additions as int,
            deletions: self.deletions as int,
        }
    }
}

/// A result with a title of its own.
#[derive(Debug)]
pub struct TitledResult {
    pub title: String,
    pub metadata: Json,
    pub output: String,
}

#[verifier::ext_equal]
pub struct TitledResultView {
    pub title: Seq<char>,
    pub metadata: JsonView,
    pub output: Seq<char>,
}

impl View for TitledResult {
    type V = TitledResultView;

    open spec fn view(&self) -> TitledResultView {
        TitledResultView { title: self.title@, metadata: self.metadata@, output: self.output@ }
    }
}

pub open spec fn is_blank_text(s: Seq<char>) -> bool {
    trim(s).len() == 0
}

/// What is wrong with a request before the file is looked at.
pub open spec fn request_fault(
    patch_text: Seq<char>,
    hash_check: bool,
    hash: Option<Seq<char>>,
) -> Option<Seq<char>> {
    if is_blank_text(patch_text) {
        Some("patchText is required"@)
    } else if hash_check && is_blank_text(
        match hash {
            Some(h) => h,
            None => ""@,
        },
    ) {
        Some("hashCode is required when hashCheckMode is true"@)
    } else {
        None
    }
}

/// Checks a request before the file is read.
pub fn check_request(options: &ApplyOptions) -> (r: Result<(), Error>)
    ensures
        match r {
            Ok(_) => request_fault(
                options.patch_text@,
                options.hash_check_mode,
                opt_text(options.hash_code),
            ) is None,
            Err(e) => request_fault(
                options.patch_text@,
                options.hash_check_mode,
                opt_text(options.hash_code),
            ) == Some(e@),
        },
{
    let text = chars_of(options.patch_text.as_str());
    if is_blank(text.as_slice()) {
        return Err(Error::of("patchText is required"));
    }
    if options.hash_check_mode {
        let hash = match &options.hash_code {
            Some(h) => chars_of(h.as_str()),
            None => chars_of(""),
        };
        if is_blank(hash.as_slice()) {
            return Err(Error::of("hashCode is required when hashCheckMode is true"));
        }
    }
    Ok(())
}

pub open spec fn hash_mismatch(path: Seq<char>, expected: Seq<char>, current: Seq<char>) -> Seq<
    char,
> {
    "hash mismatch for "@ + path + ": expected "@ + expected + ", current "@ + current
        + "; re-read and retry"@
}

/// Why a file whose hash is asked for may not be touched: the hash that was
/// given is none, or is not that of the file.
pub open spec fn hash_fault(path: Seq<char>, given: Option<Seq<char>>, bytes: Seq<u8>) -> Option<
    Seq<char>,
> {
    match normal_hash(
        match given {
            Some(h) => h,
            None => ""@,
        },
    ) {
        None => Some(
            "hashCode must be a full SHA-256 digest, optionally prefixed with sha256:"@,
        ),
        Some(expected) => if expected == hash_code(bytes) {
            None
        } else {
            Some(hash_mismatch(path, expected, hash_code(bytes)))
        },
    }
}

/// Checks that a file still has the hash that the caller knows.
pub fn check_hash(path: &str, given: &Option<String>, bytes: &[u8]) -> (r: Result<(), Error>)
    ensures
        match r {
            Ok(_) => hash_fault(path@, opt_text(*given), bytes@) is None,
            Err(e) => hash_fault(path@, opt_text(*given), bytes@) == Some(e@),
        },
{
    let normal = match given {
        Some(h) => normalize_hash_code(h.as_str()),
        None => normalize_hash_code(""),
    };
    let expected = match normal {
        Ok(code) => code,
        Err(e) => {
            return Err(e);
        },
    };
    let current = hash_bytes(bytes);
    if same_text(expected.as_str(), current.as_str()) {
        Ok(())
    } else {
        let mut m = owned("hash mismatch for ");
        m.append(path);
        m.append(": expected ");
        m.append(expected.as_str());
        m.append(", current ");
        m.append(current.as_str());
        m.append("; re-read and retry");
        Err(Error::new(m))
    }
}

// ---------------------------------------------------------------------------
// What is told
// ---------------------------------------------------------------------------
/// What is told about a text file that became `after`, given the diff.
pub open spec fn text_patch_file(
    place: PlaceView,
    path: Seq<char>,
    before: Seq<char>,
    after: Seq<char>,
    diff: Seq<char>,
) -> PatchFileView {
    PatchFileView {
        file_path: path,
        relative_path: titled_in(place, path),
        kind: "update"@,
        diff,
        before,
        after,
        additions: count_marked(lines_of(diff), '+') as int,
        deletions: count_marked(lines_of(diff), '-') as int,
    }
}

/// Tells about a text file, with the diff between its two texts given.
pub fn patch_file_from_diff(
    ctx: &ToolContext,
    path: &str,
    before: &str,
    after: &str,
    diff: String,
) -> (r: PatchFile)
    ensures
        r@ == text_patch_file(ctx@, path@, before@, after@, diff@),
{
    let additions: usize = count_diff_lines(diff.as_str(), '+');
    let deletions: usize = count_diff_lines(diff.as_str(), '-');
    PatchFile {
        file_path: owned(path),
        relative_path: ctx.title(path),
        kind: owned("update"),
        diff,
        before: owned(before),
        after: owned(after),
        additions,
        deletions,
    }
}

fn patch_file(ctx: &ToolContext, path: &str, before: &str, after: &str) -> (r: PatchFile)
    ensures
        r@ == text_patch_file(
            ctx@,
            path@,
            before@,
            after@,
            named_diff(unified_diff(before@, after@), path@),
        ),
{
    let diff = diff_text(path, before, after);
    patch_file_from_diff(ctx, path, before, after, diff)
}

pub open spec fn binary_summary(path: Seq<char>, before: Seq<u8>, after: Seq<u8>) -> Seq<char> {
    "Binary update: "@ + path + "\n- "@ + dec(before.len()) + " bytes: "@ + hex_summary(before)
        + "\n+ "@ + dec(after.len()) + " bytes: "@ + hex_summary(after) + "\n"@
}

/// What is told about a binary file.
pub open spec fn byte_patch_file(
    place: PlaceView,
    path: Seq<char>,
    before: Seq<u8>,
    after: Seq<u8>,
) -> PatchFileView {
    PatchFileView {
        file_path: path,
        relative_path: titled_in(place, path),
        kind: "binary-update"@,
        diff: binary_summary(path, before, after),
        before: hex_summary(before),
        after: hex_summary(after),
        additions: after.len() as int,
        deletions: before.len() as int,
    }
}

/// Tells about a binary file.
pub fn binary_patch_file(ctx: &ToolContext, path: &str, before: &[u8], after: &[u8]) -> (r:
    PatchFile)
    ensures
        r@ == byte_patch_file(ctx@, path@, before@, after@),
{
    let before_hex = bytes_hex(before);
    let after_hex = bytes_hex(after);
    let mut diff = owned("Binary update: ");
    diff.append(path);
    diff.append("\n- ");
    append_dec(&mut diff, before.len() as u64);
    diff.append(" bytes: ");
    diff.append(before_hex.as_str());
    diff.append("\n+ ");
    append_dec(&mut diff, after.len() as u64);
    diff.append(" bytes: ");
    diff.append(after_hex.as_str());
    diff.append("\n");
    PatchFile {
        file_path: owned(path),
        relative_path: ctx.title(path),
        kind: owned("binary-update"),
        diff,
        before: before_hex,
        after: after_hex,
        additions: after.len(),
        deletions: before.len(),
    }
}

pub open spec fn count_json(n: int) -> JsonView {
    JsonView::Number(NumberView::Unsigned(n as u64))
}

/// What a result says of a patched file: not what the whole file held or holds.
pub open spec fn patch_file_json(f: PatchFileView) -> JsonView {
    JsonView::Object(
        Map::empty().insert("filePath"@, JsonView::Text(f.file_path)).insert(
            "relativePath"@,
            JsonView::Text(f.relative_path),
        ).insert("type"@, JsonView::Text(f.kind)).insert("diff"@, JsonView::Text(f.diff)).insert(
            "additions"@,
            count_json(f.additions),
        ).insert("deletions"@, count_json(f.deletions)),
    )
}

fn patch_file_value(f: &PatchFile) -> (r: Json)
    ensures
        r@ == patch_file_json(f@),
{
    let mut e: Vec<(String, Json)> = Vec::new();
    put(&mut e, "filePath", Json::text(f.file_path.as_str()));
    put(&mut e, "relativePath", Json::text(f.relative_path.as_str()));
    put(&mut e, "type", Json::text(f.kind.as_str()));
    put(&mut e, "diff", Json::text(f.diff.as_str()));
    put(&mut e, "additions", Json::count(f.additions as u64));
    put(&mut e, "deletions", Json::count(f.deletions as u64));
    Json::Object(e)
}

pub open spec fn patch_output(f: PatchFileView, hash: Option<Seq<char>>) -> Seq<char> {
    let head = "Success. Updated file:\nM "@ + f.relative_path;
    match hash {
        Some(h) => head + "\nhashCode: "@ + h,
        None => head,
    }
}

pub open spec fn patch_metadata(f: PatchFileView, hash: Option<Seq<char>>) -> JsonView {
    let fields = Map::empty().insert("diff"@, JsonView::Text(f.diff)).insert(
        "file"@,
        patch_file_json(f),
    ).insert("diagnostics"@, JsonView::Object(Map::empty()));
    JsonView::Object(
        match hash {
            Some(h) => fields.insert("hashCode"@, JsonView::Text(h)),
            None => fields,
        },
    )
}

/// The result that tells about a patched file.
pub open spec fn patch_result(f: PatchFileView, hash: Option<Seq<char>>) -> TitledResultView {
    TitledResultView {
        title: patch_output(f, hash),
        metadata: patch_metadata(f, hash),
        output: patch_output(f, hash),
    }
}

pub fn result_from_file(file: PatchFile, hash: Option<String>) -> (r: TitledResult)
    ensures
        r@ == patch_result(file@, opt_text(hash)),
{
    let mut output = owned("Success. Updated file:\nM ");
    output.append(file.relative_path.as_str());
    match &hash {
        Some(h) => {
            output.append("\nhashCode: ");
            output.append(h.as_str());
        },
        None => {},
    }
    let mut e: Vec<(String, Json)> = Vec::new();
    put(&mut e, "diff", Json::text(file.diff.as_str()));
    put(&mut e, "file", patch_file_value(&file));
    put(&mut e, "diagnostics", Json::empty());
    match hash {
        Some(h) => {
            put(&mut e, "hashCode", Json::Text(h));
        },
        None => {},
    }
    TitledResult { title: output.clone(), metadata: Json::Object(e), output }
}

// ---------------------------------------------------------------------------
// The whole of a patch
// ---------------------------------------------------------------------------
/// What a text file becomes: its text before and after, and its bytes after.
pub open spec fn text_after(before: Seq<u8>, patch: Seq<char>) -> Result<
    (Seq<char>, Seq<char>, Seq<u8>),
    Seq<char>,
> {
    match shape_of(before) {
        Err(m) => Err(m),
        Ok(shape) => match hunks_of(patch) {
            Err(m) => Err(m),
            Ok(hunks) => match patched(shape.text, hunks) {
                Err(m) => Err(m),
                Ok(text) => Ok((shape.text, text, encode_utf8(raw_text(shape, text)))),
            },
        },
    }
}

/// What a binary file becomes.
pub open spec fn bytes_after(before: Seq<u8>, patch: Seq<char>) -> Result<Seq<u8>, Seq<char>> {
    match binary_hunks_of(patch) {
        Err(m) => Err(m),
        Ok(hunks) => patched_bytes(before, hunks),
    }
}

/// The bytes that a patched file gets and what is told about it, or why the
/// file stays as it is.
pub open spec fn patch_plan(
    place: PlaceView,
    path: Seq<char>,
    before: Seq<u8>,
    patch: Seq<char>,
    mode: PatchMode,
    hash_check: bool,
    given: Option<Seq<char>>,
) -> Result<(Seq<u8>, TitledResultView), Seq<char>> {
    if hash_check && hash_fault(path, given, before) is Some {
        Err(hash_fault(path, given, before)->Some_0)
    } else {
        match mode {
            PatchMode::Text => match text_after(before, patch) {
                Err(m) => Err(m),
                Ok((old_text, new_text, bytes)) => Ok(
                    (
                        bytes,
                        patch_result(
                            text_patch_file(
                                place,
                                path,
                                old_text,
                                new_text,
                                named_diff(unified_diff(old_text, new_text), path),
                            ),
                            if hash_check {
                                Some(hash_code(bytes))
                            } else {
                                None
                            },
                        ),
                    ),
                ),
            },
            PatchMode::Binary => match bytes_after(before, patch) {
                Err(m) => Err(m),
                Ok(bytes) => Ok(
                    (
                        bytes,
                        patch_result(
                            byte_patch_file(place, path, before, bytes),
                            if hash_check {
                                Some(hash_code(bytes))
                            } else {
                                None
                            },
                        ),
                    ),
                ),
            },
        }
    }
}

/// Works out a patch for the file at `target`, which holds `before`: the bytes
/// to write and the result to return, or the error that leaves the file alone.
pub fn apply_patch(
    options: &ApplyOptions,
    ctx: &ToolContext,
    target: &str,
    before: Vec<u8>,
) -> (r: Result<(Vec<u8>, TitledResult), Error>)
    ensures
        ({
            let plan = patch_plan(
                ctx@,
                target@,
                before@,
                options.patch_text@,
                options.patch_mode,
                options.hash_check_mode,
                opt_text(options.hash_code),
            );
            match r {
                Ok((bytes, result)) => plan == Ok::<(Seq<u8>, TitledResultView), Seq<char>>(
                    (bytes@, result@),
                ),
                Err(e) => plan == Err::<(Seq<u8>, TitledResultView), Seq<char>>(e@),
            }
        }),
{
    if options.hash_check_mode {
        match check_hash(target, &options.hash_code, before.as_slice()) {
            Ok(_) => {},
            Err(e) => {
                return Err(e);
            },
        }
    }
    match options.patch_mode {
        PatchMode::Text => apply_text_patch(options, ctx, target, before),
        PatchMode::Binary => apply_binary_patch(options, ctx, target, before),
    }
}

fn apply_text_patch(
    options: &ApplyOptions,
    ctx: &ToolContext,
    target: &str,
    before: Vec<u8>,
) -> (r: Result<(Vec<u8>, TitledResult), Error>)
    requires
        options.patch_mode == PatchMode::Text,
        options.hash_check_mode ==> hash_fault(
            target@,
            opt_text(options.hash_code),
            before@,
        ) is None,
    ensures
        ({
            let plan = patch_plan(
                ctx@,
                target@,
                before@,
                options.patch_text@,
                options.patch_mode,
                options.hash_check_mode,
                opt_text(options.hash_code),
            );
            match r {
                Ok((bytes, result)) => plan == Ok::<(Seq<u8>, TitledResultView), Seq<char>>(
                    (bytes@, result@),
                ),
                Err(e) => plan == Err::<(Seq<u8>, TitledResultView), Seq<char>>(e@),
            }
        }),
{
    let shape = match TextShape::from_bytes(before) {
        Ok(shape) => shape,
        Err(e) => {
            return Err(e);
        },
    };
    let hunks = match parse_line_patch(options.patch_text.as_str()) {
        Ok(hunks) => hunks,
        Err(e) => {
            return Err(e);
        },
    };
    let text = match apply_hunks(shape.text.as_str(), hunks.as_slice()) {
        Ok(text) => text,
        Err(e) => {
            return Err(e);
        },
    };
    let bytes = shape.encode(text.as_str());
    let file = patch_file(ctx, target, shape.text.as_str(), text.as_str());
    let hash = if options.hash_check_mode {
        Some(hash_bytes(bytes.as_slice()))
    } else {
        None
    };
    Ok((bytes, result_from_file(file, hash)))
}

fn apply_binary_patch(
    options: &ApplyOptions,
    ctx: &ToolContext,
    target: &str,
    before: Vec<u8>,
) -> (r: Result<(Vec<u8>, TitledResult), Error>)
    requires
        options.patch_mode == PatchMode::Binary,
        options.hash_check_mode ==> hash_fault(
            target@,
            opt_text(options.hash_code),
            before@,
        ) is None,
    ensures
        ({
            let plan = patch_plan(
                ctx@,
                target@,
                before@,
                options.patch_text@,
                options.patch_mode,
                options.hash_check_mode,
                opt_text(options.hash_code),
            );
            match r {
                Ok((bytes, result)) => plan == Ok::<(Seq<u8>, TitledResultView), Seq<char>>(
                    (bytes@, result@),
                ),
                Err(e) => plan == Err::<(Seq<u8>, TitledResultView), Seq<char>>(e@),
            }
        }),
{
    let hunks = match parse_binary_patch(options.patch_text.as_str()) {
        Ok(hunks) => hunks,
        Err(e) => {
            return Err(e);
        },
    };
    let bytes = match apply_binary_hunks(before.as_slice(), hunks.as_slice()) {
        Ok(bytes) => bytes,
        Err(e) => {
            return Err(e);
        },
    };
    let file = binary_patch_file(ctx, target, before.as_slice(), bytes.as_slice());
    let hash = if options.hash_check_mode {
        Some(hash_bytes(bytes.as_slice()))
    } else {
        None
    };
    Ok((bytes, result_from_file(file, hash)))
}

} // verus!
