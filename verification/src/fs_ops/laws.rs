//! What the titled tools show, stated by what they share with the plain ones.

use crate::context::PlaceView;
use crate::fs_ops::{
    each_below, grep_result, grep_search, hit_blocks, hit_times, preview, tagged_binary,
    tagged_directory, tagged_text,
};
use crate::json::{field, text_at, JsonView, NumberView};
use crate::order::{newest_first, sorted_texts};
use crate::protocol::lemma_output_shows;
use crate::text::number::dec;
use crate::text::split::{join, lines as lines_of};
use crate::tools::fs::read::{
    binary_end, binary_result, directory_result, dump_text, numbered, shown_line, text_result,
    window, window_info,
};
use crate::tools::fs::stamp::{stamp_json, FileStampView};
use crate::tools::rg::RgMatchView;
use vstd::prelude::*;

verus! {

// ---------------------------------------------------------------------------
// Reading
// ---------------------------------------------------------------------------
proof fn lemma_each_below_is_join(lines: Seq<Seq<char>>)
    requires
        lines.len() > 0,
    ensures
        each_below(lines) == "\n"@ + join(lines, "\n"@),
    decreases lines.len(),
{
    if lines.len() == 1 {
        reveal_with_fuel(each_below, 2);
        assert(lines.drop_last() =~= seq![]);
        assert(each_below(lines) =~= "\n"@ + join(lines, "\n"@));
    } else {
        lemma_each_below_is_join(lines.drop_last());
        assert(each_below(lines) =~= "\n"@ + join(lines, "\n"@));
    }
}

/// A titled read of a text file shows between its tags the very lines that a plain read
/// shows, and is refused where that is.
pub proof fn lemma_tagged_text_is_what_a_read_shows(
    path: Seq<char>,
    title: Seq<char>,
    file: FileStampView,
    text: Seq<char>,
    offset: int,
    limit: int,
)
    requires
        1 <= offset <= lines_of(text).len(),
    ensures
        ({
            &&& text_result(file, text, offset, limit, None) matches Ok(plain)
            &&& tagged_text(path, title, file, text, offset, limit) matches Ok(tagged)
            &&& tagged.title == title
            &&& text_at(plain.output, "text"@) matches Some(shown)
            &&& ({
                let count = window(lines_of(text), offset, limit).len();
                let total = lines_of(text).len();
                &&& offset - 1 + count < total ==> tagged.output == "<path>"@ + path
                    + "</path>\n<type>file</type>\n<content>"@ + ("\n"@ + shown)
                    + ("\n\n(Showing lines "@ + dec(offset as nat) + "-"@ + dec(
                    (offset + count - 1) as nat,
                ) + " of "@ + dec(total) + ". Use offset="@ + dec((offset + count) as nat)
                    + " to continue.)"@) + "\n</content>"@
                &&& offset - 1 + count >= total ==> tagged.output == "<path>"@ + path
                    + "</path>\n<type>file</type>\n<content>"@ + ("\n"@ + shown)
                    + ("\n\n(End of file - total "@ + dec(total) + " lines)"@) + "\n</content>"@
                &&& field(tagged.metadata, "truncated"@) == Some(
                    JsonView::Bool(offset - 1 + count < total),
                )
                &&& field(tagged.metadata, "file"@) == Some(stamp_json(file))
            })
        }),
{
    let lines = lines_of(text);
    let shown = window(lines, offset, limit);
    lemma_output_shows(
        ""@,
        join(numbered(shown, offset), "\n"@),
        window_info("lines"@, offset, shown.len() as int, lines.len() as int),
    );
    assert(shown.len() > 0);
    lemma_each_below_is_join(numbered(shown, offset));
    lemma_preview_names_differ();
}

/// A titled read of a directory shows the very entries that a plain one shows.
pub proof fn lemma_tagged_directory_is_what_a_read_shows(
    path: Seq<char>,
    title: Seq<char>,
    file: FileStampView,
    names: Seq<Seq<char>>,
    offset: int,
    limit: int,
)
    ensures
        directory_result(file, names, offset, limit) is Ok <==> tagged_directory(
            path,
            title,
            file,
            names,
            offset,
            limit,
        ) is Ok,
        directory_result(file, names, offset, limit) matches Ok(plain) ==> {
            &&& tagged_directory(path, title, file, names, offset, limit) matches Ok(tagged)
            &&& tagged.title == title
            &&& text_at(plain.output, "text"@) matches Some(shown)
            &&& ({
                let count = window(sorted_texts(names), offset, limit).len();
                let total = names.len();
                &&& offset - 1 + count < total ==> tagged.output == "<path>"@ + path
                    + "</path>\n<type>directory</type>\n<entries>\n"@ + shown + ("\n(Showing "@
                    + dec(count) + " of "@ + dec(total)
                    + " entries. Use 'offset' parameter to read beyond entry "@ + dec(
                    (offset + count) as nat,
                ) + ")"@) + "\n</entries>"@
                &&& offset - 1 + count >= total ==> tagged.output == "<path>"@ + path
                    + "</path>\n<type>directory</type>\n<entries>\n"@ + shown + ("\n("@ + dec(total)
                    + " entries)"@) + "\n</entries>"@
            })
        },
{
    let shown = window(sorted_texts(names), offset, limit);
    lemma_output_shows(
        ""@,
        join(shown, "\n"@),
        window_info("entries"@, offset, shown.len() as int, names.len() as int),
    );
}

/// A titled read of bytes shows the very dump that a plain one shows, and tells where it
/// starts, how long it is and how long the file is.
pub proof fn lemma_tagged_binary_is_what_a_read_shows(
    path: Seq<char>,
    title: Seq<char>,
    file: FileStampView,
    bytes: Seq<u8>,
    offset: int,
    limit: int,
)
    requires
        0 <= offset,
        bytes.len() <= u64::MAX,
    ensures
        binary_result(file, bytes, offset, limit, None) is Ok <==> tagged_binary(
            path,
            title,
            file,
            bytes,
            offset,
            limit,
        ) is Ok,
        binary_result(file, bytes, offset, limit, None) matches Ok(plain) ==> {
            let end = binary_end(bytes.len() as int, offset, limit);
            &&& tagged_binary(path, title, file, bytes, offset, limit) matches Ok(tagged)
            &&& tagged.title == title
            &&& text_at(tagged.metadata, "preview"@) == text_at(plain.output, "text"@)
            &&& field(tagged.metadata, "offset"@) == Some(
                JsonView::Number(NumberView::Unsigned(offset as u64)),
            )
            &&& field(tagged.metadata, "length"@) == Some(
                JsonView::Number(NumberView::Unsigned((end - offset) as u64)),
            )
            &&& field(tagged.metadata, "totalBytes"@) == Some(
                JsonView::Number(NumberView::Unsigned(bytes.len() as u64)),
            )
            &&& field(tagged.metadata, "truncated"@) == Some(JsonView::Bool(end < bytes.len()))
            &&& field(tagged.metadata, "file"@) == Some(stamp_json(file))
        },
{
    let end = binary_end(bytes.len() as int, offset, limit);
    if offset <= bytes.len() {
        let info = if end < bytes.len() {
            "Showing bytes "@ + dec(offset as nat) + "-"@ + dec((end - 1) as nat) + " of "@ + dec(
                bytes.len(),
            ) + ". Use offset="@ + dec(end as nat) + " to continue."@
        } else {
            "total "@ + dec(bytes.len()) + " bytes"@
        };
        lemma_output_shows(""@, dump_text(bytes.subrange(offset, end), offset), info);
        lemma_preview_names_differ();
    }
}

proof fn lemma_preview_names_differ()
    ensures
        "file"@.len() == 4,
        "preview"@.len() == 7,
        "truncated"@.len() == 9,
        "loaded"@.len() == 6,
        "mode"@.len() == 4,
        "encoding"@.len() == 8,
        "offset"@.len() == 6,
        "length"@.len() == 6,
        "totalBytes"@.len() == 10,
        "file"@[0] == 'f',
        "mode"@[0] == 'm',
        "loaded"@[1] == 'o',
        "length"@[1] == 'e',
        "offset"@[0] == 'o',
        "loaded"@[0] == 'l',
        "length"@[0] == 'l',
{
    reveal_strlit("file");
    reveal_strlit("preview");
    reveal_strlit("truncated");
    reveal_strlit("loaded");
    reveal_strlit("mode");
    reveal_strlit("encoding");
    reveal_strlit("offset");
    reveal_strlit("length");
    reveal_strlit("totalBytes");
}

/// A preview is the first lines of what is shown, all of them where there are few.
pub proof fn lemma_preview_is_the_start(shown: Seq<Seq<char>>)
    ensures
        shown.len() <= 20 ==> preview(shown) == join(shown, "\n"@),
        shown.len() > 20 ==> preview(shown) == join(shown.take(20), "\n"@),
{
}

// ---------------------------------------------------------------------------
// Searching
// ---------------------------------------------------------------------------
/// A search asks for the pattern as it was given, with its letters as they are, below the
/// path that it names or the directory, in the files that its glob names or in all.
pub proof fn lemma_grep_asks_for_the_pattern(
    place: PlaceView,
    pattern: Seq<char>,
    path: Option<Seq<char>>,
    include_glob: Option<Seq<char>>,
)
    ensures
        ({
            let o = grep_search(place, pattern, path, include_glob);
            &&& o.pattern == pattern
            &&& o.case_sensitive
            &&& o.root == Some(
                if path is Some {
                    crate::paths::join_path(place.windows, place.directory, path->Some_0)
                } else {
                    place.directory
                },
            )
            &&& o.path is None
            &&& o.max_count is None
            &&& include_glob is None ==> o.globs.len() == 0
            &&& include_glob matches Some(g) ==> o.globs.len() == 1 && o.globs[0] == g
        }),
{
}

/// Every hit is shown on a line with its number and its text, behind those of the hits
/// before it; a heading with the path stands before the first hit of every run of hits in
/// one file, with a blank line before it where it is not the first of all.
pub proof fn lemma_every_hit_is_shown(hits: Seq<RgMatchView>, k: int)
    requires
        1 <= k <= hits.len(),
        forall|i: int| 0 <= i < hits.len() ==> (#[trigger] hits[i]).path.len() > 0,
    ensures
        ({
            let before = hit_blocks(hits, k - 1);
            let now = hit_blocks(hits, k);
            let hit = hits[k - 1];
            let line = "  Line "@ + dec(hit.line_number as nat) + ": "@ + shown_line(hit.line);
            &&& k == 1 ==> now == seq![hit.path + ":"@, line]
            &&& k > 1 && hits[k - 2].path == hit.path ==> now == before.push(line)
            &&& k > 1 && hits[k - 2].path != hit.path ==> now == before.push(""@).push(
                hit.path + ":"@,
            ).push(line)
        }),
{
    reveal_strlit("");
    reveal_with_fuel(hit_blocks, 2);
    let before = hit_blocks(hits, k - 1);
    let now = hit_blocks(hits, k);
    let hit = hits[k - 1];
    let line = "  Line "@ + dec(hit.line_number as nat) + ": "@ + shown_line(hit.line);
    assert(hit.path.len() > 0);
    if k == 1 {
        assert(now =~= seq![hit.path + ":"@, line]);
    } else {
        assert(hits[k - 2].path.len() > 0);
        if hits[k - 2].path == hit.path {
            assert(now =~= before.push(line));
        } else {
            assert(now =~= before.push(""@).push(hit.path + ":"@).push(line));
        }
    }
}

/// A search tells how many hits there were, shows up to a hundred of them, newest first,
/// and says where there were more.
pub proof fn lemma_grep_tells(pattern: Seq<char>, hits: Seq<RgMatchView>)
    requires
        hits.len() <= u64::MAX,
    ensures
        ({
            let r = grep_result(pattern, hits);
            let sorted = newest_first(hits, hit_times(hits));
            let shown = if sorted.len() > 100 {
                sorted.take(100)
            } else {
                sorted
            };
            &&& r.title == pattern
            &&& field(r.metadata, "matches"@) == Some(
                JsonView::Number(NumberView::Unsigned(hits.len() as u64)),
            )
            &&& field(r.metadata, "truncated"@) == Some(JsonView::Bool(hits.len() > 100))
            &&& hits.len() == 0 ==> r.output == "No files found"@
            &&& 0 < hits.len() <= 100 ==> r.output == join(
                seq!["Found "@ + dec(hits.len()) + " matches"@] + hit_blocks(
                    shown,
                    shown.len() as int,
                ),
                "\n"@,
            )
            &&& hits.len() > 100 ==> r.output == join(
                (seq!["Found "@ + dec(hits.len()) + " matches"@ + " (showing first 100)"@]
                    + hit_blocks(shown, 100)).push(""@).push(
                    "(Results truncated: showing 100 of "@ + dec(hits.len()) + " matches ("@ + dec(
                        (hits.len() - 100) as nat,
                    ) + " hidden). Consider using a more specific path or pattern.)"@,
                ),
                "\n"@,
            )
        }),
{
    reveal_strlit("matches");
    reveal_strlit("truncated");
    reveal_strlit("");
    assert("matches"@.len() == 7 && "truncated"@.len() == 9);
    crate::order::lemma_newest_places(hit_times(hits));
    let head = "Found "@ + dec(hits.len()) + " matches"@;
    assert(head + ""@ =~= head);
}

/// A read that starts behind the last line is refused, and no other is; of an empty file
/// the first line can be asked for, and nothing is shown.
pub proof fn lemma_reads_behind_the_end(
    path: Seq<char>,
    title: Seq<char>,
    file: FileStampView,
    text: Seq<char>,
    offset: int,
    limit: int,
    hash: Option<Seq<char>>,
)
    requires
        offset >= 1,
    ensures
        text.len() > 0 ==> (text_result(file, text, offset, limit, hash) is Err <==> offset
            > lines_of(text).len()),
        text.len() > 0 ==> (tagged_text(path, title, file, text, offset, limit) is Err <==> offset
            > lines_of(text).len()),
        text_result(file, seq![], offset, limit, hash) is Err <==> offset > 1,
        tagged_text(path, title, file, seq![], offset, limit) is Err <==> offset > 1,
        text_result(file, seq![], 1, limit, hash) matches Ok(r) && text_at(r.output, "text"@)
            == Some(Seq::<char>::empty()) && text_at(r.output, "info"@) == Some("total 0 lines"@),
{
    crate::text::laws::lemma_text_has_lines(text);
    crate::text::laws::lemma_text_has_lines(seq![]);
    reveal_strlit("total ");
    reveal_strlit(" ");
    reveal_strlit("lines");
    reveal_strlit("total 0 lines");
    reveal_with_fuel(dec, 2);
    assert(dec(0) =~= seq!['0']);
    assert("total "@ + dec(0) + " "@ + "lines"@ =~= "total 0 lines"@);
    let none = Seq::<Seq<char>>::empty();
    assert(window(none, 1, limit) =~= none);
    assert(crate::tools::fs::read::numbered(none, 1) =~= none);
    assert(join(none, "\n"@) =~= seq![]);
    crate::protocol::lemma_output_shows(""@, seq![], "total 0 lines"@);
}

} // verus!
