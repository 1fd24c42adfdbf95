//! What a file is: its identity, place, kind, size and age.

use crate::json::{field, put, text_at, Json, JsonView, NumberView};
use crate::protocol::{
    lemma_output_shows, opt_text, output_of, tool_output, ToolResult, ToolResultView,
};
use crate::text::laws::{lemma_dec_is_digits, lemma_split_undoes_join};
use crate::text::number::{append_dec, append_dec_wide, dec};
use crate::text::owned;
use crate::text::split::{join, split};
use vstd::prelude::*;

verus! {

#[derive(Clone, Copy, Debug, PartialEq, Eq, Structural)]
pub enum FileKind {
    File,
    Directory,
    Missing,
    Other,
}

/// The identity of a file and how it stood.
#[derive(Debug)]
pub struct FileStamp {
    pub file_key: String,
    pub canonical_path: String,
    pub kind: FileKind,
    pub size: Option<u64>,
    pub mtime_ms: Option<u128>,
}

#[verifier::ext_equal]
pub struct FileStampView {
    pub file_key: Seq<char>,
    pub canonical_path: Seq<char>,
    pub kind: FileKind,
    pub size: Option<u64>,
    pub mtime_ms: Option<u128>,
}

impl View for FileStamp {
    type V = FileStampView;

    open spec fn view(&self) -> FileStampView {
        FileStampView {
            file_key: self.file_key@,
            canonical_path: self.canonical_path@,
            kind: self.kind,
            size: self.size,
            mtime_ms: self.mtime_ms,
        }
    }
}

/// A request for the stamp of a file.
#[derive(Debug)]
pub struct StatOptions {
    pub file_path: String,
}

/// What the file system says of a path: the kind of thing it is, its length,
/// its age in milliseconds, its canonical form and the file's own identity.
#[derive(Debug)]
pub struct FileFacts {
    pub is_file: bool,
    pub is_dir: bool,
    pub len: u64,
    pub mtime_ms: Option<u128>,
    pub canonical: Option<String>,
    pub file_id: Option<String>,
}

/// The canonical form of a path, or the path itself where it has none.
pub open spec fn stable_path(path: Seq<char>, canonical: Option<Seq<char>>) -> Seq<char> {
    match canonical {
        Some(c) => c,
        None => path,
    }
}

pub open spec fn millis_or_zero(t: Option<u128>) -> nat {
    match t {
        Some(t) => t as nat,
        None => 0,
    }
}

/// The key by which a file is known, whatever path leads to it. Where the
/// system gives files no identity, the path, length and age stand in.
pub open spec fn physical_file_key(
    path: Seq<char>,
    canonical: Option<Seq<char>>,
    file_id: Option<Seq<char>>,
    len: u64,
    mtime_ms: Option<u128>,
) -> Seq<char> {
    match file_id {
        Some(id) => "file-id:"@ + id,
        None => "path:"@ + stable_path(path, canonical) + ":"@ + dec(len as nat) + ":"@ + dec(
            millis_or_zero(mtime_ms),
        ),
    }
}

pub open spec fn kind_of(is_file: bool, is_dir: bool) -> FileKind {
    if is_file {
        FileKind::File
    } else if is_dir {
        FileKind::Directory
    } else {
        FileKind::Other
    }
}

/// The stamp of a path that exists.
pub open spec fn present_stamp(path: Seq<char>, facts: FileFacts) -> FileStampView {
    FileStampView {
        file_key: physical_file_key(
            path,
            opt_text(facts.canonical),
            opt_text(facts.file_id),
            facts.len,
            facts.mtime_ms,
        ),
        canonical_path: stable_path(path, opt_text(facts.canonical)),
        kind: kind_of(facts.is_file, facts.is_dir),
        size: if facts.is_file {
            Some(facts.len)
        } else {
            None
        },
        mtime_ms: facts.mtime_ms,
    }
}

/// The stamp of a path that leads nowhere.
pub open spec fn missing_stamp(path: Seq<char>, canonical: Option<Seq<char>>) -> FileStampView {
    FileStampView {
        file_key: "missing:"@ + stable_path(path, canonical),
        canonical_path: stable_path(path, canonical),
        kind: FileKind::Missing,
        size: None,
        mtime_ms: None,
    }
}

fn stable(path: &str, canonical: &Option<String>) -> (r: String)
    ensures
        r@ == stable_path(path@, opt_text(*canonical)),
{
    match canonical {
        Some(c) => c.clone(),
        None => owned(path),
    }
}

/// The stamp of the file at `path`, of which the file system says `facts`; of a
/// missing file it says nothing.
pub fn file_stamp(path: &str, facts: Option<FileFacts>) -> (r: FileStamp)
    ensures
        r@ == match facts {
            Some(f) => present_stamp(path@, f),
            None => missing_stamp(path@, None),
        },
{
    match facts {
        None => {
            let mut key = owned("missing:");
            key.append(path);
            FileStamp {
                file_key: key,
                canonical_path: owned(path),
                kind: FileKind::Missing,
                size: None,
                mtime_ms: None,
            }
        },
        Some(f) => {
            let place = stable(path, &f.canonical);
            let file_key = match &f.file_id {
                Some(id) => {
                    let mut key = owned("file-id:");
                    key.append(id.as_str());
                    key
                },
                None => {
                    let mut key = owned("path:");
                    key.append(place.as_str());
                    key.append(":");
                    append_dec(&mut key, f.len);
                    key.append(":");
                    let t: u128 = match f.mtime_ms {
                        Some(t) => t,
                        None => 0,
                    };
                    append_dec_wide(&mut key, t);
                    key
                },
            };
            let kind = if f.is_file {
                FileKind::File
            } else if f.is_dir {
                FileKind::Directory
            } else {
                FileKind::Other
            };
            let size = if f.is_file {
                Some(f.len)
            } else {
                None
            };
            FileStamp { file_key, canonical_path: place, kind, size, mtime_ms: f.mtime_ms }
        },
    }
}

pub open spec fn kind_text(kind: FileKind) -> Seq<char> {
    match kind {
        FileKind::File => "file"@,
        FileKind::Directory => "directory"@,
        FileKind::Missing => "missing"@,
        FileKind::Other => "other"@,
    }
}

pub fn kind_name(kind: FileKind) -> (r: &'static str)
    ensures
        r@ == kind_text(kind),
{
    match kind {
        FileKind::File => "file",
        FileKind::Directory => "directory",
        FileKind::Missing => "missing",
        FileKind::Other => "other",
    }
}

/// A stamp as people read it.
pub open spec fn stamp_text(f: FileStampView) -> Seq<char> {
    let head = "kind: "@ + kind_text(f.kind) + "\ncanonicalPath: "@ + f.canonical_path
        + "\nfileKey: "@ + f.file_key;
    let sized = match f.size {
        Some(n) => head + "\nsize: "@ + dec(n as nat),
        None => head,
    };
    match f.mtime_ms {
        Some(t) => sized + "\nmtimeMs: "@ + dec(t as nat),
        None => sized,
    }
}

pub fn format_file_stamp(file: &FileStamp) -> (r: String)
    ensures
        r@ == stamp_text(file@),
{
    let mut out = owned("kind: ");
    out.append(kind_name(file.kind));
    out.append("\ncanonicalPath: ");
    out.append(file.canonical_path.as_str());
    out.append("\nfileKey: ");
    out.append(file.file_key.as_str());
    match file.size {
        Some(n) => {
            out.append("\nsize: ");
            append_dec(&mut out, n);
        },
        None => {},
    }
    match file.mtime_ms {
        Some(t) => {
            out.append("\nmtimeMs: ");
            append_dec_wide(&mut out, t);
        },
        None => {},
    }
    out
}

/// A stamp as programs read it.
pub open spec fn stamp_json(f: FileStampView) -> JsonView {
    let base = Map::empty().insert("fileKey"@, JsonView::Text(f.file_key)).insert(
        "canonicalPath"@,
        JsonView::Text(f.canonical_path),
    ).insert("kind"@, JsonView::Text(kind_text(f.kind)));
    let sized = match f.size {
        Some(n) => base.insert("size"@, JsonView::Number(NumberView::Unsigned(n))),
        None => base,
    };
    JsonView::Object(
        match f.mtime_ms {
            Some(t) => sized.insert("mtimeMs"@, JsonView::Number(NumberView::Unsigned(t as u64))),
            None => sized,
        },
    )
}

/// The age of a file fits a number of 64 bits.
pub open spec fn age_fits(f: FileStampView) -> bool {
    match f.mtime_ms {
        Some(t) => t <= u64::MAX,
        None => true,
    }
}

pub fn stamp_value(file: &FileStamp) -> (r: Json)
    requires
        age_fits(file@),
    ensures
        r@ == stamp_json(file@),
{
    let mut e: Vec<(String, Json)> = Vec::new();
    put(&mut e, "fileKey", Json::text(file.file_key.as_str()));
    put(&mut e, "canonicalPath", Json::text(file.canonical_path.as_str()));
    put(&mut e, "kind", Json::text(kind_name(file.kind)));
    match file.size {
        Some(n) => {
            put(&mut e, "size", Json::count(n));
        },
        None => {},
    }
    match file.mtime_ms {
        Some(t) => {
            put(&mut e, "mtimeMs", Json::count(t as u64));
        },
        None => {},
    }
    Json::Object(e)
}

/// What a stat returns.
pub open spec fn stat_result(f: FileStampView) -> ToolResultView {
    ToolResultView {
        metadata: JsonView::Object(Map::empty().insert("file"@, stamp_json(f))),
        output: output_of(""@, stamp_text(f), ""@),
    }
}

/// Tells the stamp of a file.
pub fn stat_path(file: &FileStamp) -> (r: ToolResult)
    requires
        age_fits(file@),
    ensures
        r@ == stat_result(file@),
{
    let mut e: Vec<(String, Json)> = Vec::new();
    put(&mut e, "file", stamp_value(file));
    ToolResult { metadata: Json::Object(e), output: tool_output(format_file_stamp(file)) }
}

/// Two paths that lead to one file have one key, as hard links do.
pub proof fn lemma_one_file_one_key(a: Seq<char>, b: Seq<char>, one: FileFacts, other: FileFacts)
    requires
        one.file_id is Some,
        other.file_id is Some,
        one.file_id->Some_0@ == other.file_id->Some_0@,
    ensures
        present_stamp(a, one).file_key == present_stamp(b, other).file_key,
{
}

proof fn lemma_stamp_fields_differ()
    ensures
        "fileKey"@.len() == 7,
        "canonicalPath"@.len() == 13,
        "kind"@.len() == 4,
        "size"@.len() == 4,
        "mtimeMs"@.len() == 7,
        "file"@.len() == 4,
        "fileKey"@[0] == 'f',
        "kind"@[0] == 'k',
        "size"@[0] == 's',
        "mtimeMs"@[0] == 'm',
        "file"@[0] == 'f',
{
    reveal_strlit("fileKey");
    reveal_strlit("canonicalPath");
    reveal_strlit("kind");
    reveal_strlit("size");
    reveal_strlit("mtimeMs");
    reveal_strlit("file");
}

/// A stamp is told with its key, its path, what it is, its size and its age, and with no
/// size or age where there is none.
pub proof fn lemma_stamp_is_told(f: FileStampView)
    requires
        age_fits(f),
    ensures
        ({
            let j = stamp_json(f);
            &&& text_at(j, "fileKey"@) == Some(f.file_key)
            &&& text_at(j, "canonicalPath"@) == Some(f.canonical_path)
            &&& text_at(j, "kind"@) == Some(
                match f.kind {
                    FileKind::File => "file"@,
                    FileKind::Directory => "directory"@,
                    FileKind::Missing => "missing"@,
                    FileKind::Other => "other"@,
                },
            )
            &&& f.size matches Some(n) ==> field(j, "size"@) == Some(
                JsonView::Number(NumberView::Unsigned(n)),
            )
            &&& f.size is None ==> field(j, "size"@) is None
            &&& f.mtime_ms matches Some(t) ==> field(j, "mtimeMs"@) == Some(
                JsonView::Number(NumberView::Unsigned(t as u64)),
            )
            &&& f.mtime_ms is None ==> field(j, "mtimeMs"@) is None
            &&& field(stat_result(f).metadata, "file"@) == Some(j)
        }),
{
    lemma_stamp_fields_differ();
}

/// The lines in which people read a stamp.
pub open spec fn stamp_rows(f: FileStampView, kind: Seq<char>) -> Seq<Seq<char>> {
    let head = seq![
        "kind: "@ + kind,
        "canonicalPath: "@ + f.canonical_path,
        "fileKey: "@ + f.file_key,
    ];
    let sized = match f.size {
        Some(n) => head.push("size: "@ + dec(n as nat)),
        None => head,
    };
    match f.mtime_ms {
        Some(t) => sized.push("mtimeMs: "@ + dec(t as nat)),
        None => sized,
    }
}

proof fn lemma_three_rows(a: Seq<char>, b: Seq<char>, c: Seq<char>)
    ensures
        join(seq![a, b, c], "\n"@) == a + "\n"@ + b + "\n"@ + c,
{
    let nl = "\n"@;
    assert(seq![a, b, c].drop_last() =~= seq![a, b]);
    assert(seq![a, b].drop_last() =~= seq![a]);
    reveal_with_fuel(join, 2);
    assert(join(seq![a], nl) =~= a);
    assert(join(seq![a, b], nl) =~= a + nl + b);
}

proof fn lemma_one_more_row(rows: Seq<Seq<char>>, row: Seq<char>)
    requires
        rows.len() > 0,
    ensures
        join(rows.push(row), "\n"@) == join(rows, "\n"@) + "\n"@ + row,
{
    assert(rows.push(row).drop_last() =~= rows);
}

proof fn lemma_stamp_text_is_rows(f: FileStampView)
    ensures
        stamp_text(f) == join(stamp_rows(f, kind_text(f.kind)), "\n"@),
{
    let nl = "\n"@;
    reveal_strlit("\n");
    reveal_strlit("canonicalPath: ");
    reveal_strlit("fileKey: ");
    reveal_strlit("size: ");
    reveal_strlit("mtimeMs: ");
    reveal_strlit("\ncanonicalPath: ");
    reveal_strlit("\nfileKey: ");
    reveal_strlit("\nsize: ");
    reveal_strlit("\nmtimeMs: ");
    assert("\ncanonicalPath: "@ =~= nl + "canonicalPath: "@);
    assert("\nfileKey: "@ =~= nl + "fileKey: "@);
    assert("\nsize: "@ =~= nl + "size: "@);
    assert("\nmtimeMs: "@ =~= nl + "mtimeMs: "@);
    let a = "kind: "@ + kind_text(f.kind);
    let b = "canonicalPath: "@ + f.canonical_path;
    let c = "fileKey: "@ + f.file_key;
    let head = seq![a, b, c];
    lemma_three_rows(a, b, c);
    let text = a + "\ncanonicalPath: "@ + f.canonical_path + "\nfileKey: "@ + f.file_key;
    assert(join(head, nl) =~= text);
    let sized = match f.size {
        Some(n) => head.push("size: "@ + dec(n as nat)),
        None => head,
    };
    if let Some(n) = f.size {
        lemma_one_more_row(head, "size: "@ + dec(n as nat));
        assert(join(sized, nl) =~= text + "\nsize: "@ + dec(n as nat));
    }
    if let Some(t) = f.mtime_ms {
        lemma_one_more_row(sized, "mtimeMs: "@ + dec(t as nat));
        assert(stamp_text(f) =~= join(sized, nl) + nl + ("mtimeMs: "@ + dec(t as nat)));
    }
}

proof fn lemma_row_is_one_line(label: Seq<char>, value: Seq<char>)
    requires
        !label.contains('\n'),
        !value.contains('\n'),
    ensures
        !(label + value).contains('\n'),
{
    let row = label + value;
    assert forall|k: int| 0 <= k < row.len() implies row[k] != '\n' by {
        if k < label.len() {
            assert(label.contains(label[k]));
        } else {
            assert(value.contains(value[k - label.len()]));
        }
    }
}

/// People read the same of a stamp, a line for each fact.
pub proof fn lemma_stamp_is_shown(f: FileStampView)
    requires
        !f.canonical_path.contains('\n'),
        !f.file_key.contains('\n'),
    ensures
        ({
            let kind = text_at(stamp_json(f), "kind"@)->Some_0;
            &&& text_at(stat_result(f).output, "text"@) matches Some(text)
            &&& split(text, '\n') == stamp_rows(f, kind)
        }),
{
    lemma_stamp_fields_differ();
    lemma_output_shows(""@, stamp_text(f), ""@);
    lemma_stamp_text_is_rows(f);
    reveal_strlit("kind: ");
    reveal_strlit("canonicalPath: ");
    reveal_strlit("fileKey: ");
    reveal_strlit("size: ");
    reveal_strlit("mtimeMs: ");
    reveal_strlit("file");
    reveal_strlit("directory");
    reveal_strlit("missing");
    reveal_strlit("other");
    lemma_row_is_one_line("kind: "@, kind_text(f.kind));
    lemma_row_is_one_line("canonicalPath: "@, f.canonical_path);
    lemma_row_is_one_line("fileKey: "@, f.file_key);
    if let Some(n) = f.size {
        lemma_dec_is_digits(n as nat);
        lemma_row_is_one_line("size: "@, dec(n as nat));
    }
    if let Some(t) = f.mtime_ms {
        lemma_dec_is_digits(t as nat);
        lemma_row_is_one_line("mtimeMs: "@, dec(t as nat));
    }
    lemma_split_undoes_join(stamp_rows(f, kind_text(f.kind)));
}

/// A path that is there is told as what it is, with its size where it is a file; one that
/// leads nowhere has neither size nor age.
pub proof fn lemma_stamp_is_of_its_file(path: Seq<char>, facts: FileFacts)
    ensures
        ({
            let f = present_stamp(path, facts);
            &&& f.kind == FileKind::File <==> facts.is_file
            &&& f.kind == FileKind::Directory <==> facts.is_dir && !facts.is_file
            &&& f.kind != FileKind::Missing
            &&& f.size == (if facts.is_file {
                Some(facts.len)
            } else {
                None
            })
            &&& f.mtime_ms == facts.mtime_ms
            &&& facts.canonical matches Some(c) ==> f.canonical_path == c@
            &&& facts.canonical is None ==> f.canonical_path == path
            &&& facts.file_id matches Some(id) ==> f.file_key == "file-id:"@ + id@
            &&& facts.file_id is None ==> f.file_key == "path:"@ + f.canonical_path + ":"@ + dec(
                facts.len as nat,
            ) + ":"@ + dec(
                if facts.mtime_ms is Some {
                    facts.mtime_ms->Some_0 as nat
                } else {
                    0
                },
            )
        }),
{
}

/// What is told of a path that leads nowhere.
pub proof fn lemma_missing_path_is_told(path: Seq<char>, canonical: Option<Seq<char>>)
    ensures
        ({
            let f = missing_stamp(path, canonical);
            &&& f.kind == FileKind::Missing
            &&& f.size is None && f.mtime_ms is None
            &&& canonical matches Some(c) ==> f.canonical_path == c
            &&& canonical is None ==> f.canonical_path == path
            &&& f.file_key == "missing:"@ + f.canonical_path
        }),
{
}

} // verus!
