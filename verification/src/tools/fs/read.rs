//! Reading part of a file or directory.

use crate::bytes::{binary_byte, binary_offset, lossy, lossy_text};
use crate::error::Error;
use crate::json::{put, Json, JsonView};
use crate::order::{sort_texts, sorted_texts};
use crate::protocol::{opt_text, output_of, tool_output_full, ToolResult, ToolResultView};
use crate::text::number::{append_dec, append_hex2_upper, append_hex8, dec, hex2_upper, hex8};
use crate::text::split::{join, joined, lines as lines_of, split_lines};
use crate::text::width::{cut, cut_text};
use crate::text::{chars_of, lemma_views_push, owned, views};
use crate::tools::fs::stamp::{age_fits, stamp_json, stamp_value, FileStamp, FileStampView};
use vstd::prelude::*;
use vstd::slice::slice_subrange;
use vstd::utf8::encode_utf8;

verus! {

/// How many lines or entries a read shows where it is not told.
pub const DEFAULT_READ_LIMIT: usize = 2000;

/// How many bytes a binary read shows at most.
pub const BINARY_READ_LIMIT: usize = 128;

/// How many bytes of a line a read shows.
pub const MAX_LINE_LENGTH: usize = 2000;

#[derive(Clone, Copy, Debug, PartialEq, Eq, Structural)]
pub enum ReadMode {
    Text,
    Binary,
}

/// A request to read a file or directory.
#[derive(Debug)]
pub struct ReadOptions {
    pub file_path: String,
    pub mode: Option<ReadMode>,
    pub offset: Option<usize>,
    pub limit: Option<usize>,
    pub hash_check_mode: bool,
}

/// What a read comes down to, once it is known what the path leads to.
#[derive(Clone, Copy, Debug, PartialEq, Eq, Structural)]
pub enum ReadPlan {
    Directory { offset: usize, limit: usize },
    Binary { offset: usize, limit: usize },
    Text { offset: usize, limit: usize },
}

pub open spec fn or_default(value: Option<usize>, default: usize) -> usize {
    match value {
        Some(v) => v,
        None => default,
    }
}

/// What a read of `path` comes down to, or why it cannot be done.
pub open spec fn planned_read(
    path: Seq<char>,
    mode: Option<ReadMode>,
    offset: Option<usize>,
    limit: Option<usize>,
    hash_check: bool,
    is_file: bool,
    is_dir: bool,
) -> Result<ReadPlan, Seq<char>> {
    if hash_check && !is_file {
        Err("hashCheckMode only supports files: "@ + path)
    } else if is_dir && mode == Some(ReadMode::Binary) {
        Err("binary read mode only supports files: "@ + path)
    } else if is_dir {
        Ok(
            ReadPlan::Directory {
                offset: or_default(offset, 1),
                limit: or_default(limit, DEFAULT_READ_LIMIT),
            },
        )
    } else if mode == Some(ReadMode::Binary) {
        Ok(
            ReadPlan::Binary {
                offset: or_default(offset, 0),
                limit: or_default(limit, BINARY_READ_LIMIT),
            },
        )
    } else {
        Ok(
            ReadPlan::Text {
                offset: or_default(offset, 1),
                limit: or_default(limit, DEFAULT_READ_LIMIT),
            },
        )
    }
}

fn value_or(value: Option<usize>, default: usize) -> (r: usize)
    ensures
        r == or_default(value, default),
{
    match value {
        Some(v) => v,
        None => default,
    }
}

/// Decides how a path is read that leads to a file, a directory or neither.
pub fn plan_read(options: &ReadOptions, path: &str, is_file: bool, is_dir: bool) -> (r: Result<
    ReadPlan,
    Error,
>)
    ensures
        ({
            let plan = planned_read(
                path@,
                options.mode,
                options.offset,
                options.limit,
                options.hash_check_mode,
                is_file,
                is_dir,
            );
            match r {
                Ok(p) => plan == Ok::<ReadPlan, Seq<char>>(p),
                Err(e) => plan == Err::<ReadPlan, Seq<char>>(e@),
            }
        }),
{
    if options.hash_check_mode && !is_file {
        let mut m = owned("hashCheckMode only supports files: ");
        m.append(path);
        return Err(Error::new(m));
    }
    let binary: bool = match options.mode {
        Some(ReadMode::Binary) => true,
        _ => false,
    };
    if is_dir && binary {
        let mut m = owned("binary read mode only supports files: ");
        m.append(path);
        return Err(Error::new(m));
    }
    if is_dir {
        Ok(
            ReadPlan::Directory {
                offset: value_or(options.offset, 1),
                limit: value_or(options.limit, DEFAULT_READ_LIMIT),
            },
        )
    } else if binary {
        Ok(
            ReadPlan::Binary {
                offset: value_or(options.offset, 0),
                limit: value_or(options.limit, BINARY_READ_LIMIT),
            },
        )
    } else {
        Ok(
            ReadPlan::Text {
                offset: value_or(options.offset, 1),
                limit: value_or(options.limit, DEFAULT_READ_LIMIT),
            },
        )
    }
}

// ---------------------------------------------------------------------------
// Windows
// ---------------------------------------------------------------------------
/// How many items a read that asks for `limit` shows at most.
pub open spec fn shown_limit(limit: int) -> int {
    if limit < 1 {
        1
    } else {
        limit
    }
}

/// The items that a read shows which starts at number `offset`, counted from one.
pub open spec fn window<V>(items: Seq<V>, offset: int, limit: int) -> Seq<V> {
    let start = offset - 1;
    if start >= items.len() {
        seq![]
    } else if start + shown_limit(limit) < items.len() {
        items.subrange(start, start + shown_limit(limit))
    } else {
        items.skip(start)
    }
}

/// Whether there are items behind those that a read shows.
pub open spec fn continues<V>(items: Seq<V>, offset: int, limit: int) -> bool {
    offset - 1 + window(items, offset, limit).len() < items.len()
}

/// The number at which the next read goes on.
pub open spec fn next_offset<V>(items: Seq<V>, offset: int, limit: int) -> int {
    offset + window(items, offset, limit).len()
}

/// A read that goes on where the first one says, shows exactly what the first
/// one would have shown had it asked for as much as both.
pub proof fn lemma_windows_join<V>(items: Seq<V>, offset: int, limit: int, more: int)
    requires
        offset >= 1,
        continues(items, offset, limit),
    ensures
        window(items, offset, limit) + window(items, next_offset(items, offset, limit), more)
            == window(items, offset, shown_limit(limit) + shown_limit(more)),
{
    let first = window(items, offset, limit);
    assert(first.len() == shown_limit(limit));
    assert(first + window(items, next_offset(items, offset, limit), more) =~= window(
        items,
        offset,
        shown_limit(limit) + shown_limit(more),
    ));
}

/// The bounds of a window on `total` items.
pub fn window_end(total: usize, offset: usize, limit: usize) -> (r: (usize, usize))
    requires
        offset >= 1,
    ensures
        r.0 <= r.1 <= total,
        forall|items: Seq<Seq<char>>|
            items.len() == total ==> #[trigger] window(items, offset as int, limit as int)
                == items.subrange(r.0 as int, r.1 as int),
        offset <= total ==> r.0 == offset - 1,
        offset <= total ==> r.1 > r.0,
        offset > total ==> r.0 == r.1 == total,
{
    let most: usize = if limit < 1 {
        1
    } else {
        limit
    };
    let start: usize = if offset - 1 < total {
        offset - 1
    } else {
        total
    };
    let end: usize = if most < total - start {
        start + most
    } else {
        total
    };
    proof {
        assert forall|items: Seq<Seq<char>>| items.len() == total implies #[trigger] window(
            items,
            offset as int,
            limit as int,
        ) == items.subrange(start as int, end as int) by {
            assert(window(items, offset as int, limit as int) =~= items.subrange(
                start as int,
                end as int,
            ));
        }
    }
    (start, end)
}

pub open spec fn read_metadata(file: FileStampView, hash: Option<Seq<char>>) -> JsonView {
    let fields = Map::empty().insert("file"@, stamp_json(file));
    JsonView::Object(
        match hash {
            Some(h) => fields.insert("hashCode"@, JsonView::Text(h)),
            None => fields,
        },
    )
}

fn metadata_value(file: &FileStamp, hash: Option<String>) -> (r: Json)
    requires
        age_fits(file@),
    ensures
        r@ == read_metadata(file@, opt_text(hash)),
{
    let mut e: Vec<(String, Json)> = Vec::new();
    put(&mut e, "file", stamp_value(file));
    match hash {
        Some(h) => {
            put(&mut e, "hashCode", Json::Text(h));
        },
        None => {},
    }
    Json::Object(e)
}

/// The note on a read that shows `count` of `total` items from `offset` on.
pub open spec fn window_info(what: Seq<char>, offset: int, count: int, total: int) -> Seq<char> {
    if offset - 1 + count < total {
        "Showing "@ + what + " "@ + dec(offset as nat) + "-"@ + dec((offset + count - 1) as nat)
            + " of "@ + dec(total as nat) + ". Use offset="@ + dec((offset + count) as nat)
            + " to continue."@
    } else {
        "total "@ + dec(total as nat) + " "@ + what
    }
}

fn window_note(what: &str, offset: usize, count: usize, total: usize) -> (r: String)
    requires
        offset >= 1,
        offset - 1 + count < total ==> count >= 1,
    ensures
        r@ == window_info(what@, offset as int, count as int, total as int),
{
    if offset - 1 < total && count < total - (offset - 1) {
        let mut m = owned("Showing ");
        m.append(what);
        m.append(" ");
        append_dec(&mut m, offset as u64);
        m.append("-");
        append_dec(&mut m, (offset + count - 1) as u64);
        m.append(" of ");
        append_dec(&mut m, total as u64);
        m.append(". Use offset=");
        append_dec(&mut m, (offset + count) as u64);
        m.append(" to continue.");
        m
    } else {
        let mut m = owned("total ");
        append_dec(&mut m, total as u64);
        m.append(" ");
        m.append(what);
        m
    }
}

// ---------------------------------------------------------------------------
// Directories
// ---------------------------------------------------------------------------
/// The name that a directory listing shows: directories end in `/`.
pub open spec fn entry_name(entry: (String, bool)) -> Seq<char> {
    if entry.1 {
        entry.0@.push('/')
    } else {
        entry.0@
    }
}

pub open spec fn entry_names(entries: Seq<(String, bool)>) -> Seq<Seq<char>> {
    Seq::new(entries.len(), |i: int| entry_name(entries[i]))
}

/// What reading a directory returns.
pub open spec fn directory_result(
    file: FileStampView,
    names: Seq<Seq<char>>,
    offset: int,
    limit: int,
) -> Result<ToolResultView, Seq<char>> {
    if offset < 1 {
        Err("offset must be greater than or equal to 1"@)
    } else {
        let shown = window(sorted_texts(names), offset, limit);
        Ok(
            ToolResultView {
                metadata: read_metadata(file, None),
                output: output_of(
                    ""@,
                    join(shown, "\n"@),
                    window_info("entries"@, offset, shown.len() as int, names.len() as int),
                ),
            },
        )
    }
}

/// Shows part of a directory. Each entry comes with whether it is a directory.
pub fn read_dir(
    file: &FileStamp,
    entries: Vec<(String, bool)>,
    offset: usize,
    limit: usize,
) -> (r: Result<ToolResult, Error>)
    requires
        age_fits(file@),
    ensures
        match r {
            Ok(result) => directory_result(
                file@,
                entry_names(entries@),
                offset as int,
                limit as int,
            ) == Ok::<ToolResultView, Seq<char>>(result@),
            Err(e) => directory_result(
                file@,
                entry_names(entries@),
                offset as int,
                limit as int,
            ) == Err::<ToolResultView, Seq<char>>(e@),
        },
{
    broadcast use lemma_views_push;

    if offset < 1 {
        return Err(Error::of("offset must be greater than or equal to 1"));
    }
    let ghost wanted = entry_names(entries@);
    let mut names: Vec<String> = Vec::new();
    let mut i: usize = 0;
    while i < entries.len()
        invariant
            i <= entries@.len(),
            names@.len() == i,
            forall|j: int| 0 <= j < i ==> (#[trigger] names@[j])@ == entry_name(entries@[j]),
        decreases entries@.len() - i,
    {
        let mut name = entries[i].0.clone();
        if entries[i].1 {
            name.push('/');
        }
        names.push(name);
        i = i + 1;
    }
    proof {
        assert(views(names@) =~= wanted);
        crate::order::lemma_sorted_texts(wanted);
    }
    let sorted = sort_texts(names);
    let total: usize = sorted.len();
    let (start, end) = window_end(total, offset, limit);
    let mut shown: Vec<String> = Vec::new();
    crate::edits::copy_lines(&mut shown, sorted.as_slice(), start, end);
    proof {
        assert(views(shown@) =~= window(sorted_texts(wanted), offset as int, limit as int));
        assert(views(sorted@).len() == total);
        assert(wanted.len() == total);
    }
    let text = joined(shown.as_slice(), "\n");
    let info = window_note("entries", offset, end - start, total);
    Ok(
        ToolResult {
            metadata: metadata_value(file, None),
            output: tool_output_full(owned(""), text, info),
        },
    )
}

// ---------------------------------------------------------------------------
// Text files
// ---------------------------------------------------------------------------
/// A line as a read shows it.
pub open spec fn shown_line(line: Seq<char>) -> Seq<char> {
    cut_text(line, MAX_LINE_LENGTH as int, "... (line truncated to 2000 chars)"@)
}

/// Shortens a line to what a read shows of it.
pub fn truncate_line(line: &[char]) -> (r: String)
    ensures
        r@ == shown_line(line@),
{
    cut(line, MAX_LINE_LENGTH, "... (line truncated to 2000 chars)")
}

/// Lines with their numbers, the first of which is `offset`.
pub open spec fn numbered(lines: Seq<Seq<char>>, offset: int) -> Seq<Seq<char>> {
    Seq::new(lines.len(), |i: int| dec((offset + i) as nat) + ": "@ + shown_line(lines[i]))
}

/// What reading the text of a file returns.
pub open spec fn text_result(
    file: FileStampView,
    text: Seq<char>,
    offset: int,
    limit: int,
    hash: Option<Seq<char>>,
) -> Result<ToolResultView, Seq<char>> {
    let lines = lines_of(text);
    if lines.len() < offset && !(lines.len() == 0 && offset == 1) {
        Err(
            "Offset "@ + dec(offset as nat) + " is out of range for this file ("@ + dec(lines.len())
                + " lines)"@,
        )
    } else {
        let shown = window(lines, offset, limit);
        Ok(
            ToolResultView {
                metadata: read_metadata(file, hash),
                output: output_of(
                    ""@,
                    join(numbered(shown, offset), "\n"@),
                    window_info("lines"@, offset, shown.len() as int, lines.len() as int),
                ),
            },
        )
    }
}

/// Shows part of a text.
pub fn read_text(
    file: &FileStamp,
    text: &str,
    offset: usize,
    limit: usize,
    hash: Option<String>,
) -> (r: Result<ToolResult, Error>)
    requires
        offset >= 1,
        age_fits(file@),
    ensures
        match r {
            Ok(result) => text_result(
                file@,
                text@,
                offset as int,
                limit as int,
                opt_text(hash),
            ) == Ok::<ToolResultView, Seq<char>>(result@),
            Err(e) => text_result(
                file@,
                text@,
                offset as int,
                limit as int,
                opt_text(hash),
            ) == Err::<ToolResultView, Seq<char>>(e@),
        },
{
    broadcast use lemma_views_push;

    let all = chars_of(text);
    let lines = split_lines(all.as_slice());
    let ghost rows = lines_of(text@);
    let total: usize = lines.len();
    proof {
        assert(views(lines@).len() == total);
    }
    if total < offset && !(total == 0 && offset == 1) {
        let mut m = owned("Offset ");
        append_dec(&mut m, offset as u64);
        m.append(" is out of range for this file (");
        append_dec(&mut m, total as u64);
        m.append(" lines)");
        return Err(Error::new(m));
    }
    let (start, end) = window_end(total, offset, limit);
    let ghost shown = window(rows, offset as int, limit as int);
    let mut out: Vec<String> = Vec::new();
    let mut i: usize = start;
    while i < end
        invariant
            start <= i <= end <= total,
            total == lines@.len(),
            rows == views(lines@),
            start < end ==> start == offset - 1,
            offset >= 1,
            out@.len() == i - start,
            forall|j: int|
                0 <= j < out@.len() ==> (#[trigger] out@[j])@ == dec((offset + j) as nat) + ": "@
                    + shown_line(rows[start + j]),
        decreases end - i,
    {
        let mut line = String::new();
        append_dec(&mut line, (i + 1) as u64);
        proof {
            assert(line@ =~= dec((i + 1) as nat));
        }
        line.append(": ");
        line.append(truncate_line(lines[i]).as_str());
        proof {
            assert(rows[i as int] == lines@[i as int]@);
        }
        out.push(line);
        i = i + 1;
    }
    proof {
        assert(shown =~= rows.subrange(start as int, end as int));
        assert(views(out@) =~= numbered(shown, offset as int));
    }
    let body = joined(out.as_slice(), "\n");
    let info = window_note("lines", offset, end - start, total);
    Ok(
        ToolResult {
            metadata: metadata_value(file, hash),
            output: tool_output_full(owned(""), body, info),
        },
    )
}

/// What reading a file as text returns.
pub open spec fn file_result(
    path: Seq<char>,
    file: FileStampView,
    bytes: Seq<u8>,
    offset: int,
    limit: int,
    hash: Option<Seq<char>>,
) -> Result<ToolResultView, Seq<char>> {
    if offset < 1 {
        Err("offset must be greater than or equal to 1"@)
    } else {
        match binary_offset(bytes) {
            Some(k) => Err(
                "Cannot read binary file: "@ + path + " (binary byte at offset "@ + dec(k as nat)
                    + ": 0x"@ + hex2_upper(0) + ")"@,
            ),
            None => text_result(file, lossy_text(bytes), offset, limit, hash),
        }
    }
}

/// The numbers at which the reads start that go on, one after the other, where the
/// one before says.
pub open spec fn page_offsets<V>(items: Seq<V>, offset: int, limit: int) -> Seq<int>
    decreases items.len() - offset,
{
    if offset >= 1 && continues(items, offset, limit) {
        seq![offset] + page_offsets(items, next_offset(items, offset, limit), limit)
    } else {
        seq![offset]
    }
}

/// The lines that reads with these starts show, one read after the other.
pub open spec fn shown_on_pages(lines: Seq<Seq<char>>, offsets: Seq<int>, limit: int) -> Seq<
    Seq<char>,
>
    decreases offsets.len(),
{
    if offsets.len() == 0 {
        seq![]
    } else {
        shown_on_pages(lines, offsets.drop_last(), limit) + numbered(
            window(lines, offsets.last(), limit),
            offsets.last(),
        )
    }
}

proof fn lemma_page_offsets<V>(items: Seq<V>, offset: int, limit: int)
    requires
        1 <= offset <= items.len(),
    ensures
        ({
            let most = shown_limit(limit);
            let offsets = page_offsets(items, offset, limit);
            &&& offsets.len() == (items.len() - offset + most) / most
            &&& forall|k: int|
                0 <= k < offsets.len() ==> #[trigger] offsets[k] == offset + k * most
                    && offsets[k] <= items.len()
            &&& !continues(items, offsets.last(), limit)
            &&& forall|k: int|
                0 <= k < offsets.len() - 1 ==> continues(items, #[trigger] offsets[k], limit)
                    && next_offset(items, offsets[k], limit) == offset + (k + 1) * most
        }),
    decreases items.len() - offset,
{
    let most = shown_limit(limit);
    let offsets = page_offsets(items, offset, limit);
    let left = items.len() - offset;
    if continues(items, offset, limit) {
        let next = offset + most;
        let rest = page_offsets(items, next, limit);
        lemma_page_offsets(items, next, limit);
        assert(offsets =~= seq![offset] + rest);
        assert((left + most) / most == (left - most + most) / most + 1) by (nonlinear_arith)
            requires
                most >= 1,
        ;
        assert forall|k: int| 0 <= k < offsets.len() implies #[trigger] offsets[k] == offset + k
            * most && offsets[k] <= items.len() by {
            if k > 0 {
                assert(offsets[k] == rest[k - 1]);
                assert(next + (k - 1) * most == offset + k * most) by (nonlinear_arith)
                    requires
                        next == offset + most,
                ;
            }
        }
        assert(offsets.last() == rest.last());
        assert forall|k: int| 0 <= k < offsets.len() - 1 implies continues(
            items,
            #[trigger] offsets[k],
            limit,
        ) && next_offset(items, offsets[k], limit) == offset + (k + 1) * most by {
            if k > 0 {
                assert(offsets[k] == rest[k - 1]);
                assert(next + k * most == offset + (k + 1) * most) by (nonlinear_arith)
                    requires
                        next == offset + most,
                ;
            } else {
                assert(offset + (k + 1) * most == next) by (nonlinear_arith)
                    requires
                        next == offset + most,
                        k == 0,
                ;
            }
        }
    } else {
        assert(left < most);
        assert((left + most) / most == 1) by (nonlinear_arith)
            requires
                0 <= left < most,
        ;
        assert(offset + 0 * most == offset);
    }
}

/// The note on the page with index `k`: where to go on, or how many lines there are.
pub open spec fn page_note(offsets: Seq<int>, k: int, total: nat) -> Seq<char> {
    if k + 1 < offsets.len() {
        "Showing lines "@ + dec(offsets[k] as nat) + "-"@ + dec((offsets[k + 1] - 1) as nat)
            + " of "@ + dec(total) + ". Use offset="@ + dec(offsets[k + 1] as nat)
            + " to continue."@
    } else {
        "total "@ + dec(total) + " lines"@
    }
}

proof fn lemma_window_info_is_note(offsets: Seq<int>, k: int, count: int, total: nat)
    requires
        0 <= k < offsets.len(),
        k + 1 < offsets.len() <==> offsets[k] - 1 + count < total,
        k + 1 < offsets.len() ==> offsets[k + 1] == offsets[k] + count,
    ensures
        window_info("lines"@, offsets[k], count, total as int) == page_note(offsets, k, total),
{
    reveal_strlit("Showing ");
    reveal_strlit("lines");
    reveal_strlit(" ");
    reveal_strlit("Showing lines ");
    reveal_strlit(" lines");
    assert("Showing "@ + "lines"@ + " "@ =~= "Showing lines "@);
    let head = "total "@ + dec(total);
    assert(head + " "@ + "lines"@ =~= head + " lines"@);
}

/// What the page with index `k` shows.
pub open spec fn page_result(
    file: FileStampView,
    lines: Seq<Seq<char>>,
    offsets: Seq<int>,
    k: int,
    limit: int,
    hash: Option<Seq<char>>,
) -> ToolResultView {
    ToolResultView {
        metadata: read_metadata(file, hash),
        output: output_of(
            ""@,
            join(numbered(window(lines, offsets[k], limit), offsets[k]), "\n"@),
            page_note(offsets, k, lines.len()),
        ),
    }
}

proof fn lemma_page_start(lines: Seq<Seq<char>>, limit: int, k: int)
    requires
        lines.len() >= 1,
        0 <= k < page_offsets(lines, 1, limit).len(),
    ensures
        ({
            let offsets = page_offsets(lines, 1, limit);
            &&& 1 <= offsets[k] <= lines.len()
            &&& k + 1 < offsets.len() <==> continues(lines, offsets[k], limit)
            &&& k + 1 < offsets.len() ==> offsets[k + 1] == next_offset(lines, offsets[k], limit)
        }),
{
    let offsets = page_offsets(lines, 1, limit);
    let most = shown_limit(limit);
    lemma_page_offsets(lines, 1, limit);
    assert(offsets[k] == 1 + k * most);
    assert(k * most >= 0) by (nonlinear_arith)
        requires
            k >= 0,
            most >= 1,
    ;
    if k + 1 < offsets.len() {
        assert(offsets[k + 1] == 1 + (k + 1) * most);
    } else {
        assert(offsets[k] == offsets.last());
    }
}

proof fn lemma_pages_show(lines: Seq<Seq<char>>, limit: int, n: int)
    requires
        lines.len() >= 1,
        1 <= n <= page_offsets(lines, 1, limit).len(),
    ensures
        ({
            let offsets = page_offsets(lines, 1, limit);
            shown_on_pages(lines, offsets.take(n), limit) == numbered(
                lines.take(next_offset(lines, offsets[n - 1], limit) - 1),
                1,
            )
        }),
    decreases n,
{
    let offsets = page_offsets(lines, 1, limit);
    let offset = offsets[n - 1];
    let shown = window(lines, offset, limit);
    let end = next_offset(lines, offset, limit) - 1;
    lemma_page_start(lines, limit, n - 1);
    assert(offsets.take(n).drop_last() =~= offsets.take(n - 1));
    assert(offsets.take(n).last() == offset);
    if n == 1 {
        assert(offset == 1);
        assert(shown_on_pages(lines, offsets.take(0), limit) =~= numbered(lines.take(0), 1));
    } else {
        lemma_pages_show(lines, limit, n - 1);
        lemma_page_start(lines, limit, n - 2);
    }
    assert(numbered(lines.take(offset - 1), 1) + numbered(shown, offset) =~= numbered(
        lines.take(end),
        1,
    ));
}

/// Reading lines page by page, each read going on where the one before says, shows
/// every line once, in order and with its number, a short line in full. There are as
/// many pages as the lines need.
pub proof fn lemma_pages_show_every_line_once(lines: Seq<Seq<char>>, limit: int)
    requires
        lines.len() >= 1,
    ensures
        page_offsets(lines, 1, limit).len() == (lines.len() + shown_limit(limit) - 1)
            / shown_limit(limit),
        shown_on_pages(lines, page_offsets(lines, 1, limit), limit) == numbered(lines, 1),
        forall|i: int|
            0 <= i < lines.len() && encode_utf8(#[trigger] lines[i]).len() <= MAX_LINE_LENGTH
                ==> numbered(lines, 1)[i] == dec((i + 1) as nat) + ": "@ + lines[i],
{
    let offsets = page_offsets(lines, 1, limit);
    let n = offsets.len() as int;
    lemma_page_offsets(lines, 1, limit);
    lemma_page_start(lines, limit, n - 1);
    lemma_pages_show(lines, limit, n);
    assert(offsets.take(n) =~= offsets);
    assert(next_offset(lines, offsets[n - 1], limit) - 1 == lines.len());
    assert(lines.take(lines.len() as int) =~= lines);
}

/// Every page of a file is what a read from its start returns. Each page but the last
/// says where the next one starts, and the last one tells how many lines there are.
pub proof fn lemma_every_page_is_read(
    path: Seq<char>,
    file: FileStampView,
    bytes: Seq<u8>,
    limit: int,
    hash: Option<Seq<char>>,
    k: int,
)
    requires
        binary_offset(bytes) is None,
        lines_of(lossy_text(bytes)).len() >= 1,
        0 <= k < page_offsets(lines_of(lossy_text(bytes)), 1, limit).len(),
    ensures
        ({
            let lines = lines_of(lossy_text(bytes));
            let offsets = page_offsets(lines, 1, limit);
            file_result(path, file, bytes, offsets[k], limit, hash) == Ok::<
                ToolResultView,
                Seq<char>,
            >(page_result(file, lines, offsets, k, limit, hash))
        }),
{
    let lines = lines_of(lossy_text(bytes));
    let offsets = page_offsets(lines, 1, limit);
    lemma_page_start(lines, limit, k);
    let count = window(lines, offsets[k], limit).len() as int;
    lemma_window_info_is_note(offsets, k, count, lines.len());
}

/// No read of a file with lines starts before the first line or behind the last.
pub proof fn lemma_no_page_outside(
    path: Seq<char>,
    file: FileStampView,
    bytes: Seq<u8>,
    offset: int,
    limit: int,
    hash: Option<Seq<char>>,
)
    requires
        lines_of(lossy_text(bytes)).len() >= 1,
        offset < 1 || offset > lines_of(lossy_text(bytes)).len(),
    ensures
        file_result(path, file, bytes, offset, limit, hash) is Err,
{
}

/// Shows part of the file at `path`, which holds `bytes`, as text.
pub fn read_file(
    path: &str,
    file: &FileStamp,
    bytes: &[u8],
    offset: usize,
    limit: usize,
    hash: Option<String>,
) -> (r: Result<ToolResult, Error>)
    requires
        age_fits(file@),
    ensures
        match r {
            Ok(result) => file_result(
                path@,
                file@,
                bytes@,
                offset as int,
                limit as int,
                opt_text(hash),
            ) == Ok::<ToolResultView, Seq<char>>(result@),
            Err(e) => file_result(
                path@,
                file@,
                bytes@,
                offset as int,
                limit as int,
                opt_text(hash),
            ) == Err::<ToolResultView, Seq<char>>(e@),
        },
{
    if offset < 1 {
        return Err(Error::of("offset must be greater than or equal to 1"));
    }
    match binary_byte(bytes) {
        Some((k, byte)) => {
            let mut m = owned("Cannot read binary file: ");
            m.append(path);
            m.append(" (binary byte at offset ");
            append_dec(&mut m, k as u64);
            m.append(": 0x");
            append_hex2_upper(&mut m, byte);
            m.append(")");
            return Err(Error::new(m));
        },
        None => {},
    }
    let text = lossy(bytes);
    read_text(file, text.as_str(), offset, limit, hash)
}

// ---------------------------------------------------------------------------
// Binary files
// ---------------------------------------------------------------------------
/// The cells of a dump row: two digits for each byte, blanks where it has none.
pub open spec fn dump_cells(row: Seq<u8>, n: int) -> Seq<char>
    decreases n,
{
    if n <= 0 {
        seq![]
    } else {
        let cell = if n <= row.len() {
            hex2_upper(row[n - 1])
        } else {
            "  "@
        };
        if n == 1 {
            cell
        } else {
            dump_cells(row, n - 1) + " "@ + cell
        }
    }
}

/// A byte as a character, where it is a printable one.
pub open spec fn dump_char(b: u8) -> char {
    if 32 <= b <= 126 {
        b as char
    } else {
        '.'
    }
}

/// One row of a dump.
pub open spec fn dump_row(row: Seq<u8>, offset: int) -> Seq<char> {
    hex8(offset as nat) + "  "@ + dump_cells(row, 16) + "  |"@ + Seq::new(
        row.len(),
        |i: int| dump_char(row[i]),
    ) + "|"@
}

/// The bytes of row `k`.
pub open spec fn row_bytes(bytes: Seq<u8>, k: int) -> Seq<u8> {
    bytes.subrange(
        16 * k,
        if 16 * (k + 1) < bytes.len() {
            16 * (k + 1)
        } else {
            bytes.len() as int
        },
    )
}

pub open spec fn row_count(n: int) -> int {
    (n + 15) / 16
}

/// The rows of a dump of bytes that start at `base`.
pub open spec fn dump_rows(bytes: Seq<u8>, base: int) -> Seq<Seq<char>> {
    Seq::new(
        row_count(bytes.len() as int) as nat,
        |k: int| dump_row(row_bytes(bytes, k), base + 16 * k),
    )
}

pub open spec fn dump_text(bytes: Seq<u8>, base: int) -> Seq<char> {
    join(dump_rows(bytes, base), "\n"@)
}

fn append_cells(out: &mut String, row: &[u8])
    ensures
        final(out)@ == old(out)@ + dump_cells(row@, 16),
{
    let mut n: usize = 0;
    proof {
        assert(out@ + dump_cells(row@, 0) =~= out@);
    }
    while n < 16
        invariant
            n <= 16,
            out@ == old(out)@ + dump_cells(row@, n as int),
        decreases 16 - n,
    {
        let ghost before = out@;
        if n > 0 {
            out.append(" ");
        }
        if n < row.len() {
            append_hex2_upper(out, row[n]);
        } else {
            out.append("  ");
        }
        n = n + 1;
        proof {
            assert(out@ =~= old(out)@ + dump_cells(row@, n as int));
        }
    }
}

fn append_dump_chars(out: &mut String, row: &[u8])
    ensures
        final(out)@ == old(out)@ + Seq::new(row@.len(), |i: int| dump_char(row@[i])),
{
    let mut i: usize = 0;
    proof {
        assert(out@ + Seq::new(0, |i: int| dump_char(row@[i])) =~= out@);
    }
    while i < row.len()
        invariant
            i <= row@.len(),
            out@ == old(out)@ + Seq::new(i as nat, |i: int| dump_char(row@[i])),
        decreases row@.len() - i,
    {
        let b: u8 = row[i];
        let c: char = if 32 <= b && b <= 126 {
            b as char
        } else {
            '.'
        };
        out.push(c);
        i = i + 1;
        proof {
            assert(out@ =~= old(out)@ + Seq::new(i as nat, |i: int| dump_char(row@[i])));
        }
    }
}

/// Dumps bytes that start at offset `base` of their file.
pub fn hexdump(bytes: &[u8], base: usize) -> (r: String)
    requires
        base + bytes@.len() <= usize::MAX,
    ensures
        r@ == dump_text(bytes@, base as int),
{
    let total: usize = bytes.len();
    let mut rows: Vec<String> = Vec::new();
    let mut at: usize = 0;
    while at < total
        invariant
            total == bytes@.len(),
            base + total <= usize::MAX,
            at <= total,
            at < total ==> at == 16 * rows@.len(),
            at == total ==> rows@.len() == row_count(total as int),
            forall|k: int|
                0 <= k < rows@.len() ==> (#[trigger] rows@[k])@ == dump_row(
                    row_bytes(bytes@, k),
                    base + 16 * k,
                ),
        decreases total - at,
    {
        let ghost k = rows@.len() as int;
        let end: usize = if 16 < total - at {
            at + 16
        } else {
            total
        };
        let row = slice_subrange(bytes, at, end);
        proof {
            assert(row@ =~= row_bytes(bytes@, k));
        }
        let mut line = String::new();
        append_hex8(&mut line, (base + at) as u64);
        proof {
            assert(line@ =~= hex8((base + at) as nat));
        }
        line.append("  ");
        append_cells(&mut line, row);
        line.append("  |");
        append_dump_chars(&mut line, row);
        line.append("|");
        rows.push(line);
        at = end;
    }
    proof {
        assert(views(rows@) =~= dump_rows(bytes@, base as int));
    }
    joined(rows.as_slice(), "\n")
}

/// How many bytes a binary read shows that asks for `limit`.
pub open spec fn binary_limit(limit: int) -> int {
    if limit < 1 {
        1
    } else if limit > BINARY_READ_LIMIT {
        BINARY_READ_LIMIT as int
    } else {
        limit
    }
}

/// Where a binary read from `offset` ends.
pub open spec fn binary_end(total: int, offset: int, limit: int) -> int {
    if offset + binary_limit(limit) < total {
        offset + binary_limit(limit)
    } else {
        total
    }
}

/// What reading a file as bytes returns.
pub open spec fn binary_result(
    file: FileStampView,
    bytes: Seq<u8>,
    offset: int,
    limit: int,
    hash: Option<Seq<char>>,
) -> Result<ToolResultView, Seq<char>> {
    let total = bytes.len() as int;
    let end = binary_end(total, offset, limit);
    if offset > total {
        Err(
            "Offset "@ + dec(offset as nat) + " is out of range for this file ("@ + dec(
                total as nat,
            ) + " bytes)"@,
        )
    } else {
        let info = if end < total {
            "Showing bytes "@ + dec(offset as nat) + "-"@ + dec((end - 1) as nat) + " of "@ + dec(
                total as nat,
            ) + ". Use offset="@ + dec(end as nat) + " to continue."@
        } else {
            "total "@ + dec(total as nat) + " bytes"@
        };
        Ok(
            ToolResultView {
                metadata: read_metadata(file, hash),
                output: output_of(""@, dump_text(bytes.subrange(offset, end), offset), info),
            },
        )
    }
}

/// Shows part of a file as bytes.
pub fn read_binary_file(
    file: &FileStamp,
    bytes: &[u8],
    offset: usize,
    limit: usize,
    hash: Option<String>,
) -> (r: Result<ToolResult, Error>)
    requires
        age_fits(file@),
    ensures
        match r {
            Ok(result) => binary_result(
                file@,
                bytes@,
                offset as int,
                limit as int,
                opt_text(hash),
            ) == Ok::<ToolResultView, Seq<char>>(result@),
            Err(e) => binary_result(
                file@,
                bytes@,
                offset as int,
                limit as int,
                opt_text(hash),
            ) == Err::<ToolResultView, Seq<char>>(e@),
        },
{
    let total: usize = bytes.len();
    if offset > total {
        let mut m = owned("Offset ");
        append_dec(&mut m, offset as u64);
        m.append(" is out of range for this file (");
        append_dec(&mut m, total as u64);
        m.append(" bytes)");
        return Err(Error::new(m));
    }
    let most: usize = if limit < 1 {
        1
    } else if limit > BINARY_READ_LIMIT {
        BINARY_READ_LIMIT
    } else {
        limit
    };
    let end: usize = if most < total - offset {
        offset + most
    } else {
        total
    };
    let hex = hexdump(slice_subrange(bytes, offset, end), offset);
    let info = if end < total {
        let mut m = owned("Showing bytes ");
        append_dec(&mut m, offset as u64);
        m.append("-");
        append_dec(&mut m, (end - 1) as u64);
        m.append(" of ");
        append_dec(&mut m, total as u64);
        m.append(". Use offset=");
        append_dec(&mut m, end as u64);
        m.append(" to continue.");
        m
    } else {
        let mut m = owned("total ");
        append_dec(&mut m, total as u64);
        m.append(" bytes");
        m
    };
    Ok(
        ToolResult {
            metadata: metadata_value(file, hash),
            output: tool_output_full(owned(""), hex, info),
        },
    )
}

} // verus!
