//! Reading and searching with results that are wrapped in tags, for callers
//! that show them as they are.

pub mod laws;

use crate::bytes::{binary_byte, binary_offset, lossy, lossy_text};
use crate::context::{titled_in, PlaceView, ToolContext};
use crate::edits::copy_lines;
use crate::error::Error;
use crate::json::{items_view, put, Json, JsonView};
use crate::order::{lemma_sorted_texts, newest_first, order_by_time, sort_texts, sorted_texts};
use crate::patch::apply::{count_json, TitledResult, TitledResultView};
use crate::protocol::opt_text;
use crate::text::number::{append_dec, append_hex2_upper, dec, hex2_upper};
use crate::text::split::{join, joined, lines as lines_of, split_lines};
use crate::text::{chars_of, lemma_views_push, owned, same_text, views};
use crate::tools::fs::glob::{search_metadata, search_root, search_text, GlobSearch};
use crate::tools::fs::read::{
    binary_end, dump_text, entry_name, entry_names, hexdump, numbered, shown_line, truncate_line,
    window, window_end, BINARY_READ_LIMIT,
};
use crate::tools::fs::stamp::{age_fits, stamp_json, stamp_value, FileStamp, FileStampView};
use crate::tools::rg::{RgMatch, RgMatchView, RgOptions, RgOptionsView};
use vstd::prelude::*;
use vstd::slice::slice_subrange;

verus! {

/// How many hits a search shows.
pub const GREP_LIMIT: usize = 100;

/// How many lines of a read its preview holds.
pub const PREVIEW_LIMIT: usize = 20;

/// A request to search the contents of files.
#[derive(Debug)]
pub struct GrepOptions {
    pub pattern: String,
    pub path: Option<String>,
    pub include_glob: Option<String>,
}

// ---------------------------------------------------------------------------
// Searching
// ---------------------------------------------------------------------------
/// The search that a request stands for.
pub open spec fn grep_search(
    place: PlaceView,
    pattern: Seq<char>,
    path: Option<Seq<char>>,
    include_glob: Option<Seq<char>>,
) -> RgOptionsView {
    RgOptionsView {
        pattern,
        root: Some(search_root(place, path)),
        path: None,
        globs: match include_glob {
            Some(glob) => seq![glob],
            None => seq![],
        },
        case_sensitive: true,
        max_count: None,
        timeout: None,
    }
}

/// Works out what to search for.
pub fn grep_request(options: &GrepOptions, ctx: &ToolContext) -> (r: Result<RgOptions, Error>)
    ensures
        match r {
            Ok(rg) => options.pattern@.len() > 0 && rg@ == grep_search(
                ctx@,
                options.pattern@,
                opt_text(options.path),
                opt_text(options.include_glob),
            ),
            Err(e) => options.pattern@.len() == 0 && e@ == "pattern is required"@,
        },
{
    if options.pattern.as_str().is_empty() {
        return Err(Error::of("pattern is required"));
    }
    let search = match &options.path {
        Some(p) => ctx.resolve(p.as_str()),
        None => ctx.directory.clone(),
    };
    let rg = RgOptions::new(options.pattern.clone()).root(search);
    match &options.include_glob {
        Some(glob) => {
            let out = rg.glob(glob.clone());
            proof {
                assert(out@.globs =~= seq![glob@]);
            }
            Ok(out)
        },
        None => Ok(rg),
    }
}

pub open spec fn hit_times(hits: Seq<RgMatchView>) -> Seq<u128> {
    Seq::new(hits.len(), |i: int| hits[i].mod_time)
}

/// The lines that show hit `k`, counted from one, behind the hits before it: a
/// heading where another file begins, then the hit.
pub open spec fn hit_block(hits: Seq<RgMatchView>, k: int) -> Seq<Seq<char>> {
    let hit = hits[k - 1];
    let before = if k == 1 {
        ""@
    } else {
        hits[k - 2].path
    };
    let heading = if before == hit.path {
        seq![]
    } else if before.len() == 0 {
        seq![hit.path + ":"@]
    } else {
        seq![""@, hit.path + ":"@]
    };
    heading.push("  Line "@ + dec(hit.line_number as nat) + ": "@ + shown_line(hit.line))
}

/// The lines that show the first `k` hits.
pub open spec fn hit_blocks(hits: Seq<RgMatchView>, k: int) -> Seq<Seq<char>>
    decreases k,
{
    if k <= 0 {
        seq![]
    } else {
        hit_blocks(hits, k - 1) + hit_block(hits, k)
    }
}

/// The lines that tell what a search found. The hits are newest first.
pub open spec fn grep_lines(hits: Seq<RgMatchView>) -> Seq<Seq<char>> {
    let total = hits.len();
    let cut = total > GREP_LIMIT;
    let shown = if cut {
        hits.take(GREP_LIMIT as int)
    } else {
        hits
    };
    let head = "Found "@ + dec(total) + " matches"@ + (if cut {
        " (showing first 100)"@
    } else {
        ""@
    });
    let body = seq![head] + hit_blocks(shown, shown.len() as int);
    if cut {
        body.push(""@).push(
            "(Results truncated: showing 100 of "@ + dec(total) + " matches ("@ + dec(
                (total - GREP_LIMIT) as nat,
            ) + " hidden). Consider using a more specific path or pattern.)"@,
        )
    } else {
        body
    }
}

/// What a search returns that found `hits`.
pub open spec fn grep_result(pattern: Seq<char>, hits: Seq<RgMatchView>) -> TitledResultView {
    let sorted = newest_first(hits, hit_times(hits));
    if hits.len() == 0 {
        TitledResultView {
            title: pattern,
            metadata: JsonView::Object(
                Map::empty().insert("matches"@, count_json(0)).insert(
                    "truncated"@,
                    JsonView::Bool(false),
                ),
            ),
            output: "No files found"@,
        }
    } else {
        TitledResultView {
            title: pattern,
            metadata: JsonView::Object(
                Map::empty().insert("matches"@, count_json(hits.len() as int)).insert(
                    "truncated"@,
                    JsonView::Bool(hits.len() > GREP_LIMIT),
                ),
            ),
            output: join(grep_lines(sorted), "\n"@),
        }
    }
}

fn push_hit(lines: &mut Vec<String>, before: &str, hit: &RgMatch)
    ensures
        views(final(lines)@) == views(old(lines)@) + hit_block(
            seq![
                RgMatchView { path: before@, line_number: 0, column: 0, line: seq![], mod_time: 0 },
                hit@,
            ],
            2,
        ),
{
    broadcast use lemma_views_push;

    let ghost start = views(lines@);
    if !same_text(before, hit.path.as_str()) {
        if !before.is_empty() {
            lines.push(owned(""));
            proof {
                assert(views(lines@) =~= start.push(""@));
            }
        }
        let ghost so_far = views(lines@);
        let mut heading = hit.path.clone();
        heading.append(":");
        lines.push(heading);
        proof {
            assert(views(lines@) =~= so_far.push(hit.path@ + ":"@));
        }
    }
    let ghost so_far = views(lines@);
    let text = chars_of(hit.line.as_str());
    let mut line = owned("  Line ");
    append_dec(&mut line, hit.line_number);
    line.append(": ");
    line.append(truncate_line(text.as_slice()).as_str());
    lines.push(line);
    proof {
        assert(views(lines@) =~= so_far.push(line@));
        let pair = seq![
            RgMatchView { path: before@, line_number: 0, column: 0, line: seq![], mod_time: 0 },
            hit@,
        ];
        assert(views(lines@) =~= start + hit_block(pair, 2));
    }
}

/// Tells what a search found.
pub fn grep_output(pattern: &str, hits: &Vec<RgMatch>) -> (r: TitledResult)
    ensures
        r@ == grep_result(pattern@, views(hits@)),
{
    broadcast use lemma_views_push;

    let ghost all = views(hits@);
    let total: usize = hits.len();
    let mut e: Vec<(String, Json)> = Vec::new();
    if total == 0 {
        put(&mut e, "matches", Json::count(0));
        put(&mut e, "truncated", Json::Bool(false));
        return TitledResult {
            title: owned(pattern),
            metadata: Json::Object(e),
            output: owned("No files found"),
        };
    }
    let mut times: Vec<u128> = Vec::new();
    let mut n: usize = 0;
    while n < total
        invariant
            n <= total == hits@.len(),
            times@.len() == n,
            forall|j: int| 0 <= j < n ==> (#[trigger] times@[j]) == hits@[j].mod_time,
        decreases total - n,
    {
        times.push(hits[n].mod_time);
        n = n + 1;
    }
    proof {
        assert(times@ =~= hit_times(all));
    }
    let order = order_by_time(times.as_slice());
    let ghost sorted = newest_first(all, hit_times(all));
    let cut: bool = total > GREP_LIMIT;
    let count: usize = if cut {
        GREP_LIMIT
    } else {
        total
    };
    let ghost shown = if cut {
        sorted.take(GREP_LIMIT as int)
    } else {
        sorted
    };
    proof {
        assert(sorted.len() == total);
        assert forall|j: int| 0 <= j < total implies #[trigger] sorted[j] == hits@[order@[j] as int]@ by {}
    }
    let mut head = owned("Found ");
    append_dec(&mut head, total as u64);
    head.append(" matches");
    if cut {
        head.append(" (showing first 100)");
    } else {
        proof {
            reveal_strlit("");
            assert(head@ =~= head@ + ""@);
        }
    }
    let mut lines: Vec<String> = Vec::new();
    lines.push(head);
    proof {
        assert(views(lines@) =~= seq![head@] + hit_blocks(shown, 0));
    }
    let mut i: usize = 0;
    while i < count
        invariant
            i <= count <= total,
            total == hits@.len(),
            order@.len() == total,
            shown.len() == count,
            forall|j: int| 0 <= j < order@.len() ==> (#[trigger] order@[j]) < hits@.len(),
            forall|j: int| 0 <= j < count ==> #[trigger] shown[j] == hits@[order@[j] as int]@,
            views(lines@) == seq![head@] + hit_blocks(shown, i as int),
        decreases count - i,
    {
        let before: &str = if i == 0 {
            ""
        } else {
            hits[order[i - 1]].path.as_str()
        };
        let ghost so_far = views(lines@);
        proof {
            assert(shown[i as int] == hits@[order@[i as int] as int]@);
            if i > 0 {
                assert(shown[i - 1] == hits@[order@[i - 1] as int]@);
            }
        }
        push_hit(&mut lines, before, &hits[order[i]]);
        proof {
            let pair = seq![
                RgMatchView { path: before@, line_number: 0, column: 0, line: seq![], mod_time: 0 },
                shown[i as int],
            ];
            assert(hit_block(pair, 2) == hit_block(shown, i + 1));
            assert(views(lines@) =~= seq![head@] + (hit_blocks(shown, i as int) + hit_block(
                shown,
                i + 1,
            )));
        }
        i = i + 1;
    }
    if cut {
        let ghost so_far = views(lines@);
        lines.push(owned(""));
        proof {
            assert(views(lines@) =~= so_far.push(""@));
        }
        let mut tail = owned("(Results truncated: showing 100 of ");
        append_dec(&mut tail, total as u64);
        tail.append(" matches (");
        append_dec(&mut tail, (total - GREP_LIMIT) as u64);
        tail.append(" hidden). Consider using a more specific path or pattern.)");
        lines.push(tail);
        proof {
            assert(views(lines@) =~= so_far.push(""@).push(tail@));
        }
    }
    put(&mut e, "matches", Json::count(total as u64));
    put(&mut e, "truncated", Json::Bool(cut));
    TitledResult {
        title: owned(pattern),
        metadata: Json::Object(e),
        output: joined(lines.as_slice(), "\n"),
    }
}

// ---------------------------------------------------------------------------
// Reading
// ---------------------------------------------------------------------------
/// The first lines of what a read shows.
pub open spec fn preview(shown: Seq<Seq<char>>) -> Seq<char> {
    join(
        if shown.len() > PREVIEW_LIMIT {
            shown.take(PREVIEW_LIMIT as int)
        } else {
            shown
        },
        "\n"@,
    )
}

fn preview_text(shown: &Vec<String>) -> (r: String)
    ensures
        r@ == preview(views(shown@)),
{
    let n: usize = if shown.len() > PREVIEW_LIMIT {
        PREVIEW_LIMIT
    } else {
        shown.len()
    };
    let mut front: Vec<String> = Vec::new();
    copy_lines(&mut front, shown.as_slice(), 0, n);
    proof {
        let all = views(shown@);
        if all.len() > PREVIEW_LIMIT {
            assert(views(front@) =~= all.take(PREVIEW_LIMIT as int));
        } else {
            assert(views(front@) =~= all);
        }
    }
    joined(front.as_slice(), "\n")
}

pub open spec fn preview_metadata(file: FileStampView, text: Seq<char>, truncated: bool) -> JsonView {
    JsonView::Object(
        Map::empty().insert("file"@, stamp_json(file)).insert(
            "preview"@,
            JsonView::Text(text),
        ).insert("truncated"@, JsonView::Bool(truncated)).insert(
            "loaded"@,
            JsonView::Array(seq![]),
        ),
    )
}

fn preview_value(file: &FileStamp, text: String, truncated: bool) -> (r: Json)
    requires
        age_fits(file@),
    ensures
        r@ == preview_metadata(file@, text@, truncated),
{
    let mut e: Vec<(String, Json)> = Vec::new();
    put(&mut e, "file", stamp_value(file));
    put(&mut e, "preview", Json::Text(text));
    put(&mut e, "truncated", Json::Bool(truncated));
    let none: Vec<Json> = Vec::new();
    proof {
        assert(items_view(none@) =~= seq![]);
    }
    put(&mut e, "loaded", Json::Array(none));
    Json::Object(e)
}

/// What reading a directory returns.
pub open spec fn tagged_directory(
    path: Seq<char>,
    title: Seq<char>,
    file: FileStampView,
    names: Seq<Seq<char>>,
    offset: int,
    limit: int,
) -> Result<TitledResultView, Seq<char>> {
    if offset < 1 {
        Err("offset must be greater than or equal to 1"@)
    } else {
        let shown = window(sorted_texts(names), offset, limit);
        let more = offset - 1 + shown.len() < names.len();
        let tail = if more {
            "\n(Showing "@ + dec(shown.len()) + " of "@ + dec(names.len())
                + " entries. Use 'offset' parameter to read beyond entry "@ + dec(
                (offset + shown.len()) as nat,
            ) + ")"@
        } else {
            "\n("@ + dec(names.len()) + " entries)"@
        };
        Ok(
            TitledResultView {
                title,
                metadata: preview_metadata(file, preview(shown), more),
                output: "<path>"@ + path + "</path>\n<type>directory</type>\n<entries>\n"@ + join(
                    shown,
                    "\n"@,
                ) + tail + "\n</entries>"@,
            },
        )
    }
}

/// Shows part of a directory. Each entry comes with whether it is a directory.
pub fn read_dir(
    path: &str,
    ctx: &ToolContext,
    file: &FileStamp,
    entries: Vec<(String, bool)>,
    offset: usize,
    limit: usize,
) -> (r: Result<TitledResult, Error>)
    requires
        age_fits(file@),
    ensures
        ({
            let wanted = tagged_directory(
                path@,
                titled_in(ctx@, path@),
                file@,
                entry_names(entries@),
                offset as int,
                limit as int,
            );
            match r {
                Ok(result) => wanted == Ok::<TitledResultView, Seq<char>>(result@),
                Err(e) => wanted == Err::<TitledResultView, Seq<char>>(e@),
            }
        }),
{
    if offset < 1 {
        return Err(Error::of("offset must be greater than or equal to 1"));
    }
    let ghost wanted = entry_names(entries@);
    let mut names: Vec<String> = Vec::new();
    let mut i: usize = 0;
    while i < entries.len()
        invariant
            i <= entries@.len(),
            names@.len() == i,
            forall|j: int| 0 <= j < i ==> (#[trigger] names@[j])@ == entry_name(entries@[j]),
        decreases entries@.len() - i,
    {
        let mut name = entries[i].0.clone();
        if entries[i].1 {
            name.push('/');
        }
        names.push(name);
        i = i + 1;
    }
    proof {
        assert(views(names@) =~= wanted);
        lemma_sorted_texts(wanted);
    }
    let sorted = sort_texts(names);
    let total: usize = sorted.len();
    let (start, end) = window_end(total, offset, limit);
    let mut shown: Vec<String> = Vec::new();
    copy_lines(&mut shown, sorted.as_slice(), start, end);
    let count: usize = shown.len();
    proof {
        assert(views(sorted@).len() == total);
        assert(views(shown@) =~= window(sorted_texts(wanted), offset as int, limit as int));
        assert(views(shown@).len() == count);
    }
    let more: bool = offset - 1 < total && count < total - (offset - 1);
    let mut out = owned("<path>");
    out.append(path);
    out.append("</path>\n<type>directory</type>\n<entries>\n");
    out.append(joined(shown.as_slice(), "\n").as_str());
    let mut tail = String::new();
    if more {
        tail = owned("\n(Showing ");
        append_dec(&mut tail, count as u64);
        tail.append(" of ");
        append_dec(&mut tail, total as u64);
        tail.append(" entries. Use 'offset' parameter to read beyond entry ");
        append_dec(&mut tail, (offset + count) as u64);
        tail.append(")");
    } else {
        tail = owned("\n(");
        append_dec(&mut tail, total as u64);
        tail.append(" entries)");
    }
    out.append(tail.as_str());
    out.append("\n</entries>");
    let front = preview_text(&shown);
    Ok(
        TitledResult {
            title: ctx.title(path),
            metadata: preview_value(file, front, more),
            output: out,
        },
    )
}

/// Each line behind a line end.
pub open spec fn each_below(lines: Seq<Seq<char>>) -> Seq<char>
    decreases lines.len(),
{
    if lines.len() == 0 {
        seq![]
    } else {
        each_below(lines.drop_last()) + "\n"@ + lines.last()
    }
}

pub open spec fn cut_lines(lines: Seq<Seq<char>>) -> Seq<Seq<char>> {
    Seq::new(lines.len(), |i: int| shown_line(lines[i]))
}

/// What reading the text of a file returns.
pub open spec fn tagged_text(
    path: Seq<char>,
    title: Seq<char>,
    file: FileStampView,
    text: Seq<char>,
    offset: int,
    limit: int,
) -> Result<TitledResultView, Seq<char>> {
    let lines = lines_of(text);
    if lines.len() < offset && !(lines.len() == 0 && offset == 1) {
        Err(
            "Offset "@ + dec(offset as nat) + " is out of range for this file ("@ + dec(lines.len())
                + " lines)"@,
        )
    } else {
        let shown = window(lines, offset, limit);
        let more = offset - 1 + shown.len() < lines.len();
        let tail = if more {
            "\n\n(Showing lines "@ + dec(offset as nat) + "-"@ + dec(
                (offset + shown.len() - 1) as nat,
            ) + " of "@ + dec(lines.len()) + ". Use offset="@ + dec((offset + shown.len()) as nat)
                + " to continue.)"@
        } else {
            "\n\n(End of file - total "@ + dec(lines.len()) + " lines)"@
        };
        Ok(
            TitledResultView {
                title,
                metadata: preview_metadata(file, preview(cut_lines(shown)), more),
                output: "<path>"@ + path + "</path>\n<type>file</type>\n<content>"@ + each_below(
                    numbered(shown, offset),
                ) + tail + "\n</content>"@,
            },
        )
    }
}

/// Shows part of a text.
pub fn read_text(
    path: &str,
    ctx: &ToolContext,
    file: &FileStamp,
    text: &str,
    offset: usize,
    limit: usize,
) -> (r: Result<TitledResult, Error>)
    requires
        offset >= 1,
        age_fits(file@),
    ensures
        ({
            let wanted = tagged_text(
                path@,
                titled_in(ctx@, path@),
                file@,
                text@,
                offset as int,
                limit as int,
            );
            match r {
                Ok(result) => wanted == Ok::<TitledResultView, Seq<char>>(result@),
                Err(e) => wanted == Err::<TitledResultView, Seq<char>>(e@),
            }
        }),
{
    let all = chars_of(text);
    let lines = split_lines(all.as_slice());
    let ghost rows = lines_of(text@);
    let total: usize = lines.len();
    proof {
        assert(views(lines@).len() == total);
    }
    if total < offset && !(total == 0 && offset == 1) {
        let mut m = owned("Offset ");
        append_dec(&mut m, offset as u64);
        m.append(" is out of range for this file (");
        append_dec(&mut m, total as u64);
        m.append(" lines)");
        return Err(Error::new(m));
    }
    let (start, end) = window_end(total, offset, limit);
    let ghost shown = window(rows, offset as int, limit as int);
    let mut body = String::new();
    let mut cut: Vec<String> = Vec::new();
    let mut i: usize = start;
    proof {
        assert(shown =~= rows.subrange(start as int, end as int));
        assert(numbered(shown, offset as int).take(0) =~= seq![]);
        assert(body@ =~= each_below(numbered(shown, offset as int).take(0)));
    }
    while i < end
        invariant
            start <= i <= end <= total,
            total == lines@.len(),
            rows == views(lines@),
            shown == rows.subrange(start as int, end as int),
            start < end ==> start == offset - 1,
            offset >= 1,
            cut@.len() == i - start,
            forall|j: int| 0 <= j < cut@.len() ==> (#[trigger] cut@[j])@ == shown_line(rows[start + j]),
            body@ == each_below(numbered(shown, offset as int).take(i - start)),
        decreases end - i,
    {
        let line = truncate_line(lines[i]);
        let ghost before = body@;
        proof {
            assert(rows[i as int] == lines@[i as int]@);
        }
        body.append("\n");
        append_dec(&mut body, (i + 1) as u64);
        body.append(": ");
        body.append(line.as_str());
        proof {
            let all_rows = numbered(shown, offset as int);
            let now = all_rows.take(i + 1 - start);
            assert(now.drop_last() =~= all_rows.take(i - start));
            assert(now.last() == all_rows[i - start]);
            assert(shown[i - start] == rows[i as int]);
            assert(body@ =~= before + "\n"@ + now.last());
        }
        cut.push(line);
        i = i + 1;
    }
    let count: usize = end - start;
    proof {
        assert(numbered(shown, offset as int).take(shown.len() as int) =~= numbered(
            shown,
            offset as int,
        ));
        assert(views(cut@) =~= cut_lines(shown));
    }
    let more: bool = offset - 1 < total && count < total - (offset - 1);
    let mut tail = String::new();
    if more {
        tail = owned("\n\n(Showing lines ");
        append_dec(&mut tail, offset as u64);
        tail.append("-");
        append_dec(&mut tail, (offset + count - 1) as u64);
        tail.append(" of ");
        append_dec(&mut tail, total as u64);
        tail.append(". Use offset=");
        append_dec(&mut tail, (offset + count) as u64);
        tail.append(" to continue.)");
    } else {
        tail = owned("\n\n(End of file - total ");
        append_dec(&mut tail, total as u64);
        tail.append(" lines)");
    }
    let mut out = owned("<path>");
    out.append(path);
    out.append("</path>\n<type>file</type>\n<content>");
    out.append(body.as_str());
    out.append(tail.as_str());
    out.append("\n</content>");
    let front = preview_text(&cut);
    Ok(
        TitledResult {
            title: ctx.title(path),
            metadata: preview_value(file, front, more),
            output: out,
        },
    )
}

/// What reading a file as text returns.
pub open spec fn tagged_file(
    path: Seq<char>,
    title: Seq<char>,
    file: FileStampView,
    bytes: Seq<u8>,
    offset: int,
    limit: int,
) -> Result<TitledResultView, Seq<char>> {
    if offset < 1 {
        Err("offset must be greater than or equal to 1"@)
    } else {
        match binary_offset(bytes) {
            Some(k) => Err(
                "Cannot read binary file: "@ + path + " (binary byte at offset "@ + dec(k as nat)
                    + ": 0x"@ + hex2_upper(0) + ")"@,
            ),
            None => tagged_text(path, title, file, lossy_text(bytes), offset, limit),
        }
    }
}

/// Shows part of the file at `path`, which holds `bytes`, as text.
pub fn read_file(
    path: &str,
    ctx: &ToolContext,
    file: &FileStamp,
    bytes: &[u8],
    offset: usize,
    limit: usize,
) -> (r: Result<TitledResult, Error>)
    requires
        age_fits(file@),
    ensures
        ({
            let wanted = tagged_file(
                path@,
                titled_in(ctx@, path@),
                file@,
                bytes@,
                offset as int,
                limit as int,
            );
            match r {
                Ok(result) => wanted == Ok::<TitledResultView, Seq<char>>(result@),
                Err(e) => wanted == Err::<TitledResultView, Seq<char>>(e@),
            }
        }),
{
    if offset < 1 {
        return Err(Error::of("offset must be greater than or equal to 1"));
    }
    match binary_byte(bytes) {
        Some((k, byte)) => {
            let mut m = owned("Cannot read binary file: ");
            m.append(path);
            m.append(" (binary byte at offset ");
            append_dec(&mut m, k as u64);
            m.append(": 0x");
            append_hex2_upper(&mut m, byte);
            m.append(")");
            return Err(Error::new(m));
        },
        None => {},
    }
    let text = lossy(bytes);
    read_text(path, ctx, file, text.as_str(), offset, limit)
}

/// What reading a file as bytes returns.
pub open spec fn tagged_binary(
    path: Seq<char>,
    title: Seq<char>,
    file: FileStampView,
    bytes: Seq<u8>,
    offset: int,
    limit: int,
) -> Result<TitledResultView, Seq<char>> {
    let total = bytes.len() as int;
    let end = binary_end(total, offset, limit);
    if offset > total {
        Err(
            "Offset "@ + dec(offset as nat) + " is out of range for this file ("@ + dec(
                total as nat,
            ) + " bytes)"@,
        )
    } else {
        let hex = dump_text(bytes.subrange(offset, end), offset);
        let tail = if end < total {
            "\n\n(Showing bytes "@ + dec(offset as nat) + "-"@ + dec((end - 1) as nat) + " of "@
                + dec(total as nat) + ". Use offset="@ + dec(end as nat) + " to continue.)"@
        } else {
            "\n\n(End of file - total "@ + dec(total as nat) + " bytes)"@
        };
        Ok(
            TitledResultView {
                title,
                metadata: JsonView::Object(
                    Map::empty().insert("file"@, stamp_json(file)).insert(
                        "mode"@,
                        JsonView::Text("binary"@),
                    ).insert("encoding"@, JsonView::Text("hex"@)).insert(
                        "offset"@,
                        count_json(offset),
                    ).insert("length"@, count_json(end - offset)).insert(
                        "totalBytes"@,
                        count_json(total),
                    ).insert("truncated"@, JsonView::Bool(end < total)).insert(
                        "preview"@,
                        JsonView::Text(hex),
                    ).insert("loaded"@, JsonView::Array(seq![])),
                ),
                output: "<path>"@ + path
                    + "</path>\n<type>binary</type>\n<content encoding=\"hex\" offset=\""@ + dec(
                    offset as nat,
                ) + "\" length=\""@ + dec((end - offset) as nat) + "\" total=\""@ + dec(
                    total as nat,
                ) + "\">\n"@ + hex + tail + "\n</content>"@,
            },
        )
    }
}

/// Shows part of a file as bytes.
pub fn read_binary_file(
    path: &str,
    ctx: &ToolContext,
    file: &FileStamp,
    bytes: &[u8],
    offset: usize,
    limit: usize,
) -> (r: Result<TitledResult, Error>)
    requires
        age_fits(file@),
    ensures
        ({
            let wanted = tagged_binary(
                path@,
                titled_in(ctx@, path@),
                file@,
                bytes@,
                offset as int,
                limit as int,
            );
            match r {
                Ok(result) => wanted == Ok::<TitledResultView, Seq<char>>(result@),
                Err(e) => wanted == Err::<TitledResultView, Seq<char>>(e@),
            }
        }),
{
    let total: usize = bytes.len();
    if offset > total {
        let mut m = owned("Offset ");
        append_dec(&mut m, offset as u64);
        m.append(" is out of range for this file (");
        append_dec(&mut m, total as u64);
        m.append(" bytes)");
        return Err(Error::new(m));
    }
    let most: usize = if limit < 1 {
        1
    } else if limit > BINARY_READ_LIMIT {
        BINARY_READ_LIMIT
    } else {
        limit
    };
    let end: usize = if most < total - offset {
        offset + most
    } else {
        total
    };
    let more: bool = end < total;
    let hex = hexdump(slice_subrange(bytes, offset, end), offset);
    let mut tail = String::new();
    if more {
        tail = owned("\n\n(Showing bytes ");
        append_dec(&mut tail, offset as u64);
        tail.append("-");
        append_dec(&mut tail, (end - 1) as u64);
        tail.append(" of ");
        append_dec(&mut tail, total as u64);
        tail.append(". Use offset=");
        append_dec(&mut tail, end as u64);
        tail.append(" to continue.)");
    } else {
        tail = owned("\n\n(End of file - total ");
        append_dec(&mut tail, total as u64);
        tail.append(" bytes)");
    }
    let mut out = owned("<path>");
    out.append(path);
    out.append("</path>\n<type>binary</type>\n<content encoding=\"hex\" offset=\"");
    append_dec(&mut out, offset as u64);
    out.append("\" length=\"");
    append_dec(&mut out, (end - offset) as u64);
    out.append("\" total=\"");
    append_dec(&mut out, total as u64);
    out.append("\">\n");
    out.append(hex.as_str());
    out.append(tail.as_str());
    out.append("\n</content>");
    let mut e: Vec<(String, Json)> = Vec::new();
    put(&mut e, "file", stamp_value(file));
    put(&mut e, "mode", Json::text("binary"));
    put(&mut e, "encoding", Json::text("hex"));
    put(&mut e, "offset", Json::count(offset as u64));
    put(&mut e, "length", Json::count((end - offset) as u64));
    put(&mut e, "totalBytes", Json::count(total as u64));
    put(&mut e, "truncated", Json::Bool(more));
    put(&mut e, "preview", Json::Text(hex));
    let none: Vec<Json> = Vec::new();
    proof {
        assert(items_view(none@) =~= seq![]);
    }
    put(&mut e, "loaded", Json::Array(none));
    Ok(TitledResult { title: ctx.title(path), metadata: Json::Object(e), output: out })
}

// ---------------------------------------------------------------------------
// Files found, and what a file is
// ---------------------------------------------------------------------------
/// The files that a search found, under the name of the directory they lie in.
pub fn glob_output(search: &GlobSearch, ctx: &ToolContext) -> (r: TitledResult)
    ensures
        r@ == (TitledResultView {
            title: titled_in(ctx@, search@.search),
            metadata: search_metadata(search@),
            output: search_text(search@),
        }),
{
    let (metadata, output) = search.told();
    TitledResult { title: ctx.title(search.root()), metadata, output }
}

/// What a file is; `shown` is its stamp as text.
pub fn stat_output(path: &str, ctx: &ToolContext, file: &FileStamp, shown: String) -> (r:
    TitledResult)
    requires
        age_fits(file@),
    ensures
        r@ == (TitledResultView {
            title: titled_in(ctx@, path@),
            metadata: JsonView::Object(Map::empty().insert("file"@, stamp_json(file@))),
            output: shown@,
        }),
{
    let mut e: Vec<(String, Json)> = Vec::new();
    put(&mut e, "file", stamp_value(file));
    TitledResult { title: ctx.title(path), metadata: Json::Object(e), output: shown }
}

} // verus!
