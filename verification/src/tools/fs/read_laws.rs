//! What reads show: every line under its number, every byte under its position, every
//! entry of a directory by its name.

use crate::json::{field, JsonView};
use crate::order::{lemma_sorted_texts, sorted_texts, text_order};
use crate::protocol::lemma_output_shows;
use crate::text::laws::{
    are_lines, have_no_line_end, hex_number, is_line, lemma_dec_is_digits, lemma_hex2_writes,
    lemma_hex8_writes, lemma_lines_undo_closed, lemma_split_undoes_join,
};
use crate::text::number::{dec, hex2_upper, hex8};
use crate::text::split::{find_char, join, lemma_find_char_is, split};
use crate::text::width::{chars_within, lemma_chars_within};
use crate::text::is_space;
use crate::tools::fs::read::{
    binary_end, binary_result, directory_result, dump_cells, dump_char, dump_row, dump_rows,
    dump_text, entry_name, numbered, planned_read, read_metadata, row_bytes, shown_line,
    text_result, window, ReadMode, ReadPlan, MAX_LINE_LENGTH,
};
use crate::tools::fs::stamp::{stamp_json, FileStampView};
use vstd::prelude::*;
use vstd::relations::sorted_by;
use vstd::utf8::encode_utf8;

verus! {

// ---------------------------------------------------------------------------
// Bytes
// ---------------------------------------------------------------------------
proof fn lemma_cells(row: Seq<u8>, n: int)
    requires
        1 <= n <= 16,
    ensures
        dump_cells(row, n).len() == 3 * n - 1,
        forall|j: int|
            0 <= j < n && j < row.len() ==> dump_cells(row, n).subrange(3 * j, 3 * j + 2)
                == hex2_upper(#[trigger] row[j]),
        forall|i: int| 0 <= i < dump_cells(row, n).len() ==> (#[trigger] dump_cells(row, n)[i]) != '\n',
    decreases n,
{
    reveal_strlit("  ");
    reveal_strlit(" ");
    let s = dump_cells(row, n);
    let cell = if n <= row.len() {
        hex2_upper(row[n - 1])
    } else {
        "  "@
    };
    if n <= row.len() {
        lemma_hex2_writes(row[n - 1]);
        lemma_digits_on_one_line(row[n - 1]);
    }
    assert(cell.len() == 2);
    if n > 1 {
        lemma_cells(row, n - 1);
        let front = dump_cells(row, n - 1);
        assert(s == front + " "@ + cell);
        assert forall|j: int| 0 <= j < n && j < row.len() implies s.subrange(3 * j, 3 * j + 2)
            == hex2_upper(#[trigger] row[j]) by {
            if j < n - 1 {
                assert(s.subrange(3 * j, 3 * j + 2) =~= front.subrange(3 * j, 3 * j + 2));
            } else {
                assert(s.subrange(3 * j, 3 * j + 2) =~= cell);
            }
        }
        assert forall|i: int| 0 <= i < s.len() implies (#[trigger] s[i]) != '\n' by {
            if i < front.len() {
                assert(s[i] == front[i]);
            } else if i > front.len() {
                assert(s[i] == cell[i - front.len() - 1]);
            }
        }
    } else {
        assert(s == cell);
        assert(s.subrange(0, 2) =~= cell);
    }
}

proof fn lemma_digits_on_one_line(b: u8)
    ensures
        hex2_upper(b)[0] != '\n',
        hex2_upper(b)[1] != '\n',
{
    assert((b / 16) as nat % 16 == b / 16);
    assert((b % 16) as nat % 16 == b % 16);
}

proof fn lemma_row(row: Seq<u8>, offset: int)
    requires
        offset >= 0,
        row.len() <= 16,
    ensures
        ({
            let s = dump_row(row, offset);
            let label = find_char(s, ' ');
            &&& hex_number(s.take(label)) == offset
            &&& label >= 8
            &&& s.len() == label + 53 + row.len()
            &&& !s.contains('\n')
            &&& forall|j: int|
                0 <= j < row.len() ==> s.subrange(label + 2 + 3 * j, label + 4 + 3 * j)
                    == hex2_upper(#[trigger] row[j]) && s[label + 52 + j] == dump_char(row[j])
        }),
{
    reveal_strlit("  ");
    reveal_strlit("  |");
    reveal_strlit("|");
    lemma_hex8_writes(offset as nat);
    lemma_cells(row, 16);
    let head = hex8(offset as nat);
    let cells = dump_cells(row, 16);
    let shown = Seq::new(row.len(), |i: int| dump_char(row[i]));
    let s = dump_row(row, offset);
    assert(s == head + "  "@ + cells + "  |"@ + shown + "|"@);
    let label = head.len() as int;
    assert(s[label] == ' ');
    assert forall|i: int| 0 <= i < label implies s[i] != ' ' by {
        assert(s[i] == head[i]);
        assert(!is_space(head[i]));
    }
    lemma_find_char_is(s, ' ', label);
    assert(s.take(label) =~= head);
    assert forall|j: int| 0 <= j < row.len() implies s.subrange(
        label + 2 + 3 * j,
        label + 4 + 3 * j,
    ) == hex2_upper(#[trigger] row[j]) && s[label + 52 + j] == dump_char(row[j]) by {
        assert(s.subrange(label + 2 + 3 * j, label + 4 + 3 * j) =~= cells.subrange(
            3 * j,
            3 * j + 2,
        ));
        assert(s[label + 52 + j] == shown[j]);
    }
    assert forall|i: int| 0 <= i < s.len() implies s[i] != '\n' by {
        if i < label {
            assert(s[i] == head[i]);
        } else if i < label + 2 {
            assert(s[i] == ' ');
        } else if i < label + 49 {
            assert(s[i] == cells[i - label - 2]);
        } else if i < label + 52 {
            assert(s[i] == "  |"@[i - label - 49]);
        } else if i < label + 52 + row.len() {
            assert(s[i] == shown[i - label - 52]);
        }
    }
}

/// A dump has a row for each sixteen bytes. The label of a row, read as a hexadecimal
/// number, is the position of its first byte; every byte stands in the row and the
/// column of its position, by its two digits and, where it can be printed, as a
/// character.
pub proof fn lemma_dump_shows_every_byte(bytes: Seq<u8>, base: int, i: int)
    requires
        base >= 0,
        0 <= i < bytes.len(),
    ensures
        ({
            let rows = split(dump_text(bytes, base), '\n');
            let row = rows[i / 16];
            let label = find_char(row, ' ');
            &&& rows.len() == (bytes.len() + 15) / 16
            &&& i / 16 < rows.len()
            &&& 8 <= label
            &&& label + 52 + i % 16 < row.len()
            &&& hex_number(row.take(label)) == base + i - i % 16
            &&& hex_number(row.subrange(label + 2 + 3 * (i % 16), label + 4 + 3 * (i % 16)))
                == bytes[i]
            &&& row[label + 52 + i % 16] == (if 32 <= bytes[i] <= 126 {
                bytes[i] as char
            } else {
                '.'
            })
        }),
{
    let rows = dump_rows(bytes, base);
    let n = rows.len() as int;
    let k = i / 16;
    let j = i % 16;
    assert(n == (bytes.len() + 15) / 16);
    assert(0 <= k < n);
    assert(i == 16 * k + j);
    assert forall|m: int| 0 <= m < n implies !(#[trigger] rows[m]).contains('\n') by {
        assert(16 * m < bytes.len());
        let part = row_bytes(bytes, m);
        assert(part.len() <= 16);
        lemma_row(part, base + 16 * m);
    }
    lemma_split_undoes_join(rows);
    let part = row_bytes(bytes, k);
    assert(j < part.len() <= 16);
    assert(part[j] == bytes[i]);
    lemma_row(part, base + 16 * k);
    assert(rows[k] == dump_row(part, base + 16 * k));
    lemma_hex2_writes(bytes[i]);
}

/// The labels of a dump count on by sixteen from the position that the dump starts at.
pub proof fn lemma_labels_count_on(bytes: Seq<u8>, base: int, k: int)
    requires
        base >= 0,
        0 <= k,
        16 * k < bytes.len(),
    ensures
        ({
            let row = split(dump_text(bytes, base), '\n')[k];
            hex_number(row.take(find_char(row, ' '))) == base + 16 * k
        }),
{
    lemma_dump_shows_every_byte(bytes, base, 16 * k);
    assert(16 * k / 16 == k);
    assert(16 * k % 16 == 0);
}

/// A read of bytes from an offset shows the bytes from there on, each under its position
/// in the file, as many as were asked for but one at least and no more than the limit.
/// Where there are more, the note tells the offset behind the last byte shown.
pub proof fn lemma_binary_read_shows(
    file: FileStampView,
    bytes: Seq<u8>,
    offset: int,
    limit: int,
    hash: Option<Seq<char>>,
    p: int,
)
    requires
        0 <= offset <= p < bytes.len(),
        p < offset + (if limit < 1 {
            1
        } else if limit > 128 {
            128
        } else {
            limit
        }),
    ensures
        ({
            let most = if limit < 1 {
                1
            } else if limit > 128 {
                128
            } else {
                limit
            };
            let count = if offset + most < bytes.len() {
                most
            } else {
                bytes.len() - offset
            };
            &&& binary_result(file, bytes, offset, limit, hash) matches Ok(r)
            &&& r.metadata == read_metadata(file, hash)
            &&& field(r.output, "text"@) matches Some(JsonView::Text(text))
            &&& ({
                let rows = split(text, '\n');
                let row = rows[(p - offset) / 16];
                let label = find_char(row, ' ');
                let at = label + 2 + 3 * ((p - offset) % 16);
                &&& rows.len() == (count + 15) / 16
                &&& hex_number(row.take(label)) + (p - offset) % 16 == p
                &&& hex_number(row.subrange(at, at + 2)) == bytes[p]
            })
            &&& offset + most < bytes.len() ==> field(r.output, "info"@) == Some(
                JsonView::Text(
                    "Showing bytes "@ + dec(offset as nat) + "-"@ + dec((offset + most - 1) as nat)
                        + " of "@ + dec(bytes.len()) + ". Use offset="@ + dec(
                        (offset + most) as nat,
                    ) + " to continue."@,
                ),
            )
            &&& offset + most >= bytes.len() ==> field(r.output, "info"@) == Some(
                JsonView::Text("total "@ + dec(bytes.len()) + " bytes"@),
            )
        }),
{
    let end = binary_end(bytes.len() as int, offset, limit);
    let part = bytes.subrange(offset, end);
    lemma_dump_shows_every_byte(part, offset, p - offset);
    assert(part[p - offset] == bytes[p]);
    let r = binary_result(file, bytes, offset, limit, hash)->Ok_0;
    let info = if end < bytes.len() {
        "Showing bytes "@ + dec(offset as nat) + "-"@ + dec((end - 1) as nat) + " of "@ + dec(
            bytes.len(),
        ) + ". Use offset="@ + dec(end as nat) + " to continue."@
    } else {
        "total "@ + dec(bytes.len()) + " bytes"@
    };
    lemma_output_shows(""@, dump_text(part, offset), info);
}

/// A read of bytes is refused if and only if it starts behind the end of the file.
pub proof fn lemma_binary_read_is_refused(
    file: FileStampView,
    bytes: Seq<u8>,
    offset: int,
    limit: int,
    hash: Option<Seq<char>>,
)
    ensures
        binary_result(file, bytes, offset, limit, hash) is Err <==> offset > bytes.len(),
{
}

// ---------------------------------------------------------------------------
// Lines
// ---------------------------------------------------------------------------
proof fn lemma_shown_on_one_line(line: Seq<char>)
    requires
        !line.contains('\n'),
    ensures
        !shown_line(line).contains('\n'),
{
    reveal_strlit("... (line truncated to 2000 chars)");
    let suffix = "... (line truncated to 2000 chars)"@;
    let s = shown_line(line);
    lemma_chars_within(line, MAX_LINE_LENGTH as int);
    let k = chars_within(line, MAX_LINE_LENGTH as int);
    assert forall|i: int| 0 <= i < s.len() implies s[i] != '\n' by {
        if encode_utf8(line).len() <= MAX_LINE_LENGTH {
            assert(line.contains(line[i]));
        } else if i < k {
            assert(s[i] == line[i]);
            assert(line.contains(line[i]));
        } else {
            assert(s[i] == suffix[i - k]);
        }
    }
}

/// A line of at most two thousand bytes is shown whole; of a longer one as much of its
/// start as fits is shown, and that it goes on.
pub proof fn lemma_long_lines_are_cut(line: Seq<char>)
    ensures
        encode_utf8(line).len() <= 2000 ==> shown_line(line) == line,
        encode_utf8(line).len() > 2000 ==> exists|k: int|
            0 <= k < line.len() && encode_utf8(#[trigger] line.take(k)).len() <= 2000
                && shown_line(line) == line.take(k) + "... (line truncated to 2000 chars)"@,
{
    lemma_chars_within(line, 2000);
    let k = chars_within(line, 2000);
    if encode_utf8(line).len() > 2000 {
        assert(encode_utf8(line.take(k)).len() <= 2000);
    }
}

/// A read of a text file shows the lines from the one that it starts at on, as many as
/// were asked for but one at least, each under its number in the file.
pub proof fn lemma_text_read_shows(
    file: FileStampView,
    rows: Seq<Seq<char>>,
    offset: int,
    limit: int,
    hash: Option<Seq<char>>,
    i: int,
)
    requires
        are_lines(rows),
        1 <= offset <= rows.len(),
        0 <= i < rows.len() - offset + 1,
        i < (if limit < 1 {
            1
        } else {
            limit
        }),
    ensures
        ({
            let most = if limit < 1 {
                1
            } else {
                limit
            };
            let left = rows.len() - offset + 1;
            &&& text_result(file, join(rows, "\n"@) + "\n"@, offset, limit, hash) matches Ok(r)
            &&& r.metadata == read_metadata(file, hash)
            &&& field(r.output, "text"@) matches Some(JsonView::Text(text))
            &&& split(text, '\n').len() == (if most < left {
                most
            } else {
                left
            })
            &&& split(text, '\n')[i] == dec((offset + i) as nat) + ": "@ + shown_line(
                rows[offset - 1 + i],
            )
            &&& most < left ==> field(r.output, "info"@) == Some(
                JsonView::Text(
                    "Showing lines "@ + dec(offset as nat) + "-"@ + dec((offset + most - 1) as nat)
                        + " of "@ + dec(rows.len()) + ". Use offset="@ + dec(
                        (offset + most) as nat,
                    ) + " to continue."@,
                ),
            )
            &&& most >= left ==> field(r.output, "info"@) == Some(
                JsonView::Text("total "@ + dec(rows.len()) + " lines"@),
            )
        }),
{
    reveal_strlit("Showing ");
    reveal_strlit("Showing lines ");
    reveal_strlit("lines");
    reveal_strlit(" ");
    reveal_strlit(" lines");
    reveal_strlit(": ");
    lemma_lines_undo_closed(rows);
    let text = join(rows, "\n"@) + "\n"@;
    let shown = window(rows, offset, limit);
    let out = numbered(shown, offset);
    assert(shown[i] == rows[offset - 1 + i]);
    assert forall|j: int| 0 <= j < out.len() implies !(#[trigger] out[j]).contains('\n') by {
        let line = shown[j];
        assert(line == rows[offset - 1 + j]);
        assert(is_line(rows[offset - 1 + j]));
        lemma_shown_on_one_line(line);
        lemma_dec_is_digits((offset + j) as nat);
        let head = dec((offset + j) as nat);
        let body = shown_line(line);
        let s = out[j];
        assert(s == head + ": "@ + body);
        assert forall|m: int| 0 <= m < s.len() implies s[m] != '\n' by {
            if m < head.len() {
                assert(s[m] == head[m]);
            } else if m < head.len() + 2 {
                assert(s[m] == ": "@[m - head.len()]);
            } else {
                assert(s[m] == body[m - head.len() - 2]);
                assert(body.contains(body[m - head.len() - 2]));
            }
        }
    }
    lemma_split_undoes_join(out);
    let info = crate::tools::fs::read::window_info(
        "lines"@,
        offset,
        shown.len() as int,
        rows.len() as int,
    );
    lemma_output_shows(""@, join(out, "\n"@), info);
    let r = text_result(file, text, offset, limit, hash)->Ok_0;
    assert("Showing "@ + "lines"@ + " "@ =~= "Showing lines "@);
    assert(" "@ + "lines"@ =~= " lines"@);
    let total = dec(rows.len());
    assert("total "@ + total + " "@ + "lines"@ =~= "total "@ + total + " lines"@);
}

// ---------------------------------------------------------------------------
// Directories
// ---------------------------------------------------------------------------
/// A listing shows the entries in the order of their names, from the one that it starts
/// at on; one that asks for all shows each of them once.
pub proof fn lemma_listing_shows(
    file: FileStampView,
    names: Seq<Seq<char>>,
    offset: int,
    limit: int,
    i: int,
)
    requires
        have_no_line_end(names),
        1 <= offset <= names.len(),
        0 <= i < names.len() - offset + 1,
        i < (if limit < 1 {
            1
        } else {
            limit
        }),
    ensures
        ({
            &&& directory_result(file, names, offset, limit) matches Ok(r)
            &&& field(r.output, "text"@) matches Some(JsonView::Text(text))
            &&& split(text, '\n')[i] == sorted_texts(names)[offset - 1 + i]
            &&& offset == 1 && limit >= names.len() ==> split(text, '\n').to_multiset()
                == names.to_multiset() && sorted_by(split(text, '\n'), text_order())
        }),
{
    let sorted = sorted_texts(names);
    lemma_sorted_texts(names);
    let shown = window(sorted, offset, limit);
    assert(shown[i] == sorted[offset - 1 + i]);
    assert forall|j: int| 0 <= j < shown.len() implies !(#[trigger] shown[j]).contains('\n') by {
        let name = sorted[offset - 1 + j];
        assert(shown[j] == name);
        broadcast use vstd::seq_lib::group_to_multiset_ensures;

        assert(sorted.contains(name));
        assert(sorted.to_multiset().count(name) > 0);
        assert(names.to_multiset().count(name) > 0);
        assert(names.contains(name));
        let k = choose|k: int| 0 <= k < names.len() && names[k] == name;
        assert(!names[k].contains('\n'));
    }
    lemma_split_undoes_join(shown);
    let info = crate::tools::fs::read::window_info(
        "entries"@,
        offset,
        shown.len() as int,
        names.len() as int,
    );
    lemma_output_shows(""@, join(shown, "\n"@), info);
    if offset == 1 && limit >= names.len() {
        assert(shown =~= sorted);
    }
}

/// A directory is listed with a `/` behind its name, and a file without.
pub proof fn lemma_directories_are_marked(name: String)
    ensures
        entry_name((name, true)) == name@ + "/"@,
        entry_name((name, false)) == name@,
{
    reveal_strlit("/");
    assert(entry_name((name, true)) =~= name@ + "/"@);
}

// ---------------------------------------------------------------------------
// Plans
// ---------------------------------------------------------------------------
/// A directory is listed, and a file is read as bytes where that is asked for and as
/// text otherwise. Lines and entries are counted from one and bytes from zero where no
/// offset is given. A hash is told of files alone, and no directory is read as bytes.
pub proof fn lemma_read_is_planned(
    path: Seq<char>,
    mode: Option<ReadMode>,
    offset: Option<usize>,
    limit: Option<usize>,
    hash_check: bool,
    is_file: bool,
    is_dir: bool,
)
    ensures
        ({
            let plan = planned_read(path, mode, offset, limit, hash_check, is_file, is_dir);
            let bytes = mode == Some(ReadMode::Binary);
            &&& plan is Err <==> (hash_check && !is_file) || (is_dir && bytes)
            &&& plan matches Ok(ReadPlan::Directory { offset: o, limit: l }) ==> is_dir && (offset
                matches Some(v) ==> o == v) && (offset is None ==> o == 1) && (limit matches Some(
                v,
            ) ==> l == v) && (limit is None ==> l == 2000)
            &&& plan matches Ok(ReadPlan::Text { offset: o, limit: l }) ==> !is_dir && !bytes && (
            offset matches Some(v) ==> o == v) && (offset is None ==> o == 1) && (limit matches Some(
                v,
            ) ==> l == v) && (limit is None ==> l == 2000)
            &&& plan matches Ok(ReadPlan::Binary { offset: o, limit: l }) ==> !is_dir && bytes && (
            offset matches Some(v) ==> o == v) && (offset is None ==> o == 0) && (limit matches Some(
                v,
            ) ==> l == v) && (limit is None ==> l == 128)
        }),
{
}

/// The facts about a file that a read tells, and its hash where it is asked for.
pub proof fn lemma_read_tells_of_file(file: FileStampView, hash: Option<Seq<char>>)
    ensures
        field(read_metadata(file, hash), "file"@) == Some(stamp_json(file)),
        hash matches Some(h) ==> field(read_metadata(file, hash), "hashCode"@) == Some(
            JsonView::Text(h),
        ),
        hash is None ==> field(read_metadata(file, hash), "hashCode"@) is None,
{
    reveal_strlit("file");
    reveal_strlit("hashCode");
    assert("file"@.len() == 4 && "hashCode"@.len() == 8);
}

} // verus!
