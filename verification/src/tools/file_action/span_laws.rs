//! What spans of bytes mean: every span that is written down is read as what was
//! written, and a file that one is applied to has its bytes in the place that it names.

use crate::edits::laws::{lemma_edit_behind_others, lemma_one_edit};
use crate::edits::EditView;
use crate::hex::{hex_bytes, lemma_hex_reads_back, spaced_hex};
use crate::patch::bytes::{byte_count, byte_offset, is_header};
use crate::text::laws::{
    has_bare_ends, is_line, lemma_dec_is_digits, lemma_lines_undo_join, lemma_strip_crs_keeps,
    lemma_trim_start_takes, lemma_trim_takes,
};
use crate::text::number::{dec, hex2_upper, lemma_dec_reads_back};
use crate::text::split::{
    after_last, find_char, join, lemma_find_char_is, lemma_word_len, lines as lines_of, starts,
    trim, word_len, words,
};
use crate::text::{is_digit, is_space};
use crate::tools::file_action::binary_patch::{
    binary_patched, bytes_added, bytes_removed, instruction_of, opens_with_header, read_spans,
    span_edit, span_edits, spans_of, BinaryAnchor, BinaryAppendTarget, BinaryHunkView,
    BinaryPatchAppliedView,
};
use crate::tools::file_action::instruction_laws::{
    is_pad, lemma_pad, lemma_padded_is_line, lemma_parts_are_line, lemma_plain_is_line,
    lemma_starts_at, lemma_word_reads,
};
use vstd::prelude::*;

verus! {

// ---------------------------------------------------------------------------
// Spans as they are written
// ---------------------------------------------------------------------------
/// Where appended bytes go, as a span writes it.
pub open spec fn written_place(target: BinaryAppendTarget) -> Seq<char> {
    match target {
        BinaryAppendTarget::Offset(n) => dec(n as nat),
        BinaryAppendTarget::End => "-1"@,
    }
}

/// `place-len`, with `pad` wherever white space may stand.
pub open spec fn written_range(place: Seq<char>, len: usize, pad: Seq<char>) -> Seq<char> {
    place + pad + "-"@ + pad + dec(len as nat)
}

/// What stands between the white space at the ends of a span.
pub open spec fn written_core(h: BinaryHunkView, pad: Seq<char>) -> Seq<char> {
    match h.anchor {
        BinaryAnchor::Replace { offset, len } => written_range(dec(offset as nat), len, pad) + pad
            + ":"@ + spaced_hex(h.bytes),
        BinaryAnchor::Delete { offset, len } => "***DELETE***"@ + pad + written_range(
            dec(offset as nat),
            len,
            pad,
        ),
        BinaryAnchor::Append { target, len } => "***APPEND***"@ + pad + (written_range(
            written_place(target),
            len,
            pad,
        ) + pad + ":"@ + spaced_hex(h.bytes)),
    }
}

/// The line of a span.
pub open spec fn written_span(h: BinaryHunkView, pad: Seq<char>) -> Seq<char> {
    pad + written_core(h, pad) + pad
}

/// The text of a patch that has a span on each line.
pub open spec fn spans_text(hunks: Seq<BinaryHunkView>, pad: Seq<char>) -> Seq<char> {
    join(Seq::new(hunks.len(), |i: int| written_span(hunks[i], pad)), "\n"@)
}

/// Whether a span can be written down: it is about one byte at least, and has as many
/// bytes as it says.
pub open spec fn is_span(h: BinaryHunkView) -> bool {
    match h.anchor {
        BinaryAnchor::Replace { len, .. } => len >= 1 && h.bytes.len() == len,
        BinaryAnchor::Delete { len, .. } => len >= 1 && h.bytes.len() == 0,
        BinaryAnchor::Append { len, .. } => len >= 1 && h.bytes.len() == len,
    }
}

/// Whether spans can be written down, each on the line that its order says.
pub open spec fn are_spans(hunks: Seq<BinaryHunkView>) -> bool {
    forall|i: int| 0 <= i < hunks.len() ==> is_span(#[trigger] hunks[i]) && hunks[i].order == i
}

proof fn lemma_after_last_is(a: Seq<char>, c: char, b: Seq<char>)
    requires
        forall|i: int| 0 <= i < b.len() ==> b[i] != c,
    ensures
        after_last(a + seq![c] + b, c) == a.len() + 1,
    decreases b.len(),
{
    let s = a + seq![c] + b;
    if b.len() > 0 {
        assert(s.last() == b.last());
        assert(s.drop_last() =~= a + seq![c] + b.drop_last());
        lemma_after_last_is(a, c, b.drop_last());
    } else {
        assert(s.last() == c);
    }
}

proof fn lemma_hex_chars(v: u8)
    ensures
        ({
            let s = hex2_upper(v);
            &&& s.len() == 2
            &&& forall|i: int|
                0 <= i < 2 ==> !is_space(#[trigger] s[i]) && s[i] != ':' && s[i] != '\n' && s[i]
                    != '\r'
        }),
{
    assert((v / 16) as nat % 16 == v / 16);
    assert((v % 16) as nat % 16 == v % 16);
}

pub proof fn lemma_spaced_hex_chars(b: Seq<u8>)
    ensures
        ({
            let s = spaced_hex(b);
            &&& s.len() > 0 <==> b.len() > 0
            &&& has_bare_ends(s)
            &&& forall|i: int|
                0 <= i < s.len() ==> (#[trigger] s[i]) != ':' && s[i] != '\n' && s[i] != '\r'
        }),
    decreases b.len(),
{
    reveal_strlit(" ");
    if b.len() == 1 {
        lemma_hex_chars(b[0]);
    } else if b.len() > 1 {
        let most = b.drop_last();
        lemma_spaced_hex_chars(most);
        lemma_hex_chars(b.last());
        let s = spaced_hex(b);
        let front = spaced_hex(most);
        assert forall|i: int| 0 <= i < s.len() implies (#[trigger] s[i]) != ':' && s[i] != '\n'
            && s[i] != '\r' by {
            if i < front.len() {
                assert(s[i] == front[i]);
            } else if i > front.len() {
                assert(s[i] == hex2_upper(b.last())[i - front.len() - 1]);
            }
        }
        assert(s[0] == front[0]);
        assert(s.last() == hex2_upper(b.last())[1]);
    }
}

proof fn lemma_counts_read(n: usize)
    ensures
        byte_offset(dec(n as nat)) == Ok::<usize, Seq<char>>(n),
        n >= 1 ==> byte_count(dec(n as nat)) == Ok::<usize, Seq<char>>(n),
{
    lemma_dec_reads_back(n as nat, usize::MAX as nat);
}

proof fn lemma_range_parts(place: Seq<char>, len: usize, pad: Seq<char>)
    requires
        is_pad(pad),
        place.len() > 0,
        has_bare_ends(place),
        forall|i: int|
            0 <= i < place.len() ==> (#[trigger] place[i]) != ':' && place[i] != '\n' && place[i]
                != '\r',
    ensures
        ({
            let s = written_range(place, len, pad);
            let k = after_last(s, '-');
            &&& 0 < k <= s.len()
            &&& trim(s.take(k - 1)) == place
            &&& trim(s.skip(k)) == dec(len as nat)
            &&& s.len() > 0
            &&& s[0] == place[0]
            &&& has_bare_ends(s)
            &&& forall|i: int|
                0 <= i < s.len() ==> (#[trigger] s[i]) != ':' && s[i] != '\n' && s[i] != '\r'
        }),
{
    reveal_strlit("-");
    lemma_pad(pad);
    lemma_dec_is_digits(len as nat);
    let b = dec(len as nat);
    let s = written_range(place, len, pad);
    let head = place + pad;
    let tail = pad + b;
    assert forall|i: int| 0 <= i < tail.len() implies tail[i] != '-' by {
        if i < pad.len() {
            assert(tail[i] == pad[i]);
        } else {
            assert(tail[i] == b[i - pad.len()]);
        }
    }
    assert(s =~= head + seq!['-'] + tail);
    lemma_after_last_is(head, '-', tail);
    let nothing = Seq::<char>::empty();
    let k = head.len() as int + 1;
    assert(s.take(k - 1) =~= nothing + place + pad);
    assert(s.skip(k) =~= pad + b + nothing);
    lemma_trim_takes(nothing, place, pad);
    lemma_trim_takes(pad, b, nothing);
    assert(s.last() == b.last());
    assert forall|i: int| 0 <= i < s.len() implies (#[trigger] s[i]) != ':' && s[i] != '\n' && s[i]
        != '\r' by {
        if i < place.len() {
            assert(s[i] == place[i]);
        } else if i < k - 1 {
            assert(s[i] == pad[i - place.len()]);
        } else if i >= k {
            assert(s[i] == tail[i - k]);
            if i - k < pad.len() {
                assert(tail[i - k] == pad[i - k]);
            } else {
                assert(tail[i - k] == b[i - k - pad.len()]);
            }
        }
    }
}

/// A range, a colon and bytes are told apart at the colon.
proof fn lemma_colon_parts(range: Seq<char>, bytes: Seq<u8>, pad: Seq<char>)
    requires
        is_pad(pad),
        range.len() > 0,
        has_bare_ends(range),
        bytes.len() > 0,
        forall|i: int|
            0 <= i < range.len() ==> (#[trigger] range[i]) != ':' && range[i] != '\n' && range[i]
                != '\r',
    ensures
        ({
            let s = range + pad + ":"@ + spaced_hex(bytes);
            let k = find_char(s, ':');
            &&& 0 <= k < s.len()
            &&& trim(s.take(k)) == range
            &&& s.skip(k + 1) == spaced_hex(bytes)
            &&& hex_bytes(s.skip(k + 1)) == Ok::<Seq<u8>, Seq<char>>(bytes)
            &&& s[0] == range[0]
            &&& has_bare_ends(s)
            &&& is_line(s)
        }),
{
    reveal_strlit(":");
    lemma_pad(pad);
    lemma_spaced_hex_chars(bytes);
    lemma_hex_reads_back(bytes);
    let hex = spaced_hex(bytes);
    let s = range + pad + ":"@ + hex;
    let k = (range.len() + pad.len()) as int;
    assert(s[k] == ':');
    assert forall|i: int| 0 <= i < k implies s[i] != ':' by {
        if i < range.len() {
            assert(s[i] == range[i]);
        } else {
            assert(s[i] == pad[i - range.len()]);
        }
    }
    lemma_find_char_is(s, ':', k);
    let nothing = Seq::<char>::empty();
    assert(s.take(k) =~= nothing + range + pad);
    lemma_trim_takes(nothing, range, pad);
    assert(s.skip(k + 1) =~= hex);
    assert(s.last() == hex.last());
    assert forall|i: int| 0 <= i < s.len() implies (#[trigger] s[i]) != '\n' && s[i] != '\r' by {
        if i < range.len() {
            assert(s[i] == range[i]);
        } else if i < k {
            assert(s[i] == pad[i - range.len()]);
        } else if i > k {
            assert(s[i] == hex[i - k - 1]);
        }
    }
    lemma_plain_is_line(s);
}

proof fn lemma_place(target: BinaryAppendTarget)
    ensures
        ({
            let place = written_place(target);
            &&& place.len() > 0
            &&& has_bare_ends(place)
            &&& forall|i: int|
                0 <= i < place.len() ==> (#[trigger] place[i]) != ':' && place[i] != '\n'
                    && place[i] != '\r'
            &&& target is End <==> place == "-1"@
        }),
{
    reveal_strlit("-1");
    if let BinaryAppendTarget::Offset(n) = target {
        lemma_dec_is_digits(n as nat);
        assert("-1"@[0] == '-');
        assert(dec(n as nat)[0] != '-');
    }
}

proof fn lemma_span_words()
    ensures
        "***DELETE***"@.len() == 12,
        "***APPEND***"@.len() == 12,
        "***DELETE***"@[0] == '*',
        "***APPEND***"@[0] == '*',
        "***DELETE***"@[3] == 'D',
        "***APPEND***"@[3] == 'A',
        is_line("***DELETE***"@),
        is_line("***APPEND***"@),
{
    reveal_strlit("***DELETE***");
    reveal_strlit("***APPEND***");
}

/// What is read of the line of a span.
proof fn lemma_span_reads(h: BinaryHunkView, pad: Seq<char>)
    requires
        is_span(h),
        is_pad(pad),
    ensures
        instruction_of(written_span(h, pad), h.order) == Ok::<BinaryHunkView, Seq<char>>(h),
        trim(written_span(h, pad)) == written_core(h, pad),
        written_core(h, pad).len() > 0,
        is_line(written_span(h, pad)),
        is_digit(written_core(h, pad)[0]) || (written_core(h, pad)[0] == '*' && written_core(
            h,
            pad,
        ).len() > 3 && written_core(h, pad)[3] != ' '),
        has_bare_ends(written_core(h, pad)),
{
    lemma_span_words();
    let core = written_core(h, pad);
    let line = written_span(h, pad);
    let nothing = Seq::<char>::empty();
    match h.anchor {
        BinaryAnchor::Replace { offset, len } => {
            lemma_dec_is_digits(offset as nat);
            lemma_counts_read(offset);
            lemma_counts_read(len);
            let range = written_range(dec(offset as nat), len, pad);
            lemma_range_parts(dec(offset as nat), len, pad);
            lemma_colon_parts(range, h.bytes, pad);
            lemma_trim_takes(pad, core, pad);
            lemma_padded_is_line(pad, core, pad);
            if starts(core, "***DELETE***"@) {
                lemma_starts_at(core, "***DELETE***"@, 0);
            }
            if starts(core, "***APPEND***"@) {
                lemma_starts_at(core, "***APPEND***"@, 0);
            }
            assert(is_digit(dec(offset as nat)[0]));
        },
        BinaryAnchor::Delete { offset, len } => {
            lemma_dec_is_digits(offset as nat);
            lemma_counts_read(offset);
            lemma_counts_read(len);
            let range = written_range(dec(offset as nat), len, pad);
            lemma_range_parts(dec(offset as nat), len, pad);
            lemma_word_reads("***DELETE***"@, pad, range);
            assert(h.bytes =~= seq![]);
            assert(core[0] == '*' && core[3] == 'D');
            assert(core.last() == range.last());
            lemma_plain_is_line(range);
            lemma_padded_is_line(pad, range, nothing);
            lemma_parts_are_line("***DELETE***"@, pad + range);
            assert(core =~= "***DELETE***"@ + (pad + range));
            lemma_padded_is_line(pad, core, pad);
        },
        BinaryAnchor::Append { target, len } => {
            lemma_place(target);
            lemma_counts_read(len);
            if let BinaryAppendTarget::Offset(n) = target {
                lemma_counts_read(n);
            }
            let place = written_place(target);
            let range = written_range(place, len, pad);
            let rest = range + pad + ":"@ + spaced_hex(h.bytes);
            lemma_range_parts(place, len, pad);
            lemma_colon_parts(range, h.bytes, pad);
            lemma_word_reads("***APPEND***"@, pad, rest);
            assert(core[0] == '*' && core[3] == 'A');
            assert(core.last() == rest.last());
            if starts(core, "***DELETE***"@) {
                lemma_starts_at(core, "***DELETE***"@, 3);
            }
            lemma_padded_is_line(pad, rest, nothing);
            lemma_parts_are_line("***APPEND***"@, pad + rest);
            assert(core =~= "***APPEND***"@ + (pad + rest));
            lemma_padded_is_line(pad, core, pad);
        },
    }
}

proof fn lemma_no_header(h: BinaryHunkView, pad: Seq<char>)
    requires
        is_span(h),
        is_pad(pad),
    ensures
        !is_header(written_span(h, pad)),
        trim(written_span(h, pad)) != "*** Begin Patch"@,
{
    reveal_strlit("insert");
    reveal_strlit("replace");
    reveal_strlit("delete");
    reveal_strlit("*** Begin Patch");
    lemma_span_reads(h, pad);
    let core = written_core(h, pad);
    let line = written_span(h, pad);
    let behind = core + pad;
    assert(line =~= pad + behind);
    assert(behind[0] == core[0]);
    lemma_trim_start_takes(pad, behind);
    lemma_word_len(behind);
    assert(words(line)[0] == behind.take(word_len(behind)));
    assert(words(line)[0][0] == core[0]);
    assert("insert"@[0] == 'i' && "replace"@[0] == 'r' && "delete"@[0] == 'd');
    assert("*** Begin Patch"@[0] == '*' && "*** Begin Patch"@[3] == ' ');
}

proof fn lemma_spans_read(hunks: Seq<BinaryHunkView>, pad: Seq<char>, k: int)
    requires
        are_spans(hunks),
        is_pad(pad),
        0 <= k <= hunks.len(),
    ensures
        read_spans(Seq::new(hunks.len(), |i: int| written_span(hunks[i], pad)), k) == Ok::<
            Seq<BinaryHunkView>,
            Seq<char>,
        >(hunks.take(k)),
    decreases k,
{
    let all = Seq::new(hunks.len(), |i: int| written_span(hunks[i], pad));
    if k > 0 {
        lemma_spans_read(hunks, pad, k - 1);
        let h = hunks[k - 1];
        assert(is_span(h) && h.order == k - 1);
        lemma_span_reads(h, pad);
        lemma_strip_crs_keeps(all[k - 1]);
        assert(hunks.take(k - 1).push(h) =~= hunks.take(k));
    } else {
        assert(hunks.take(0) =~= seq![]);
    }
}

/// Spans that are written down are read as what was written, one after the other, with
/// white space round their numbers or without.
pub proof fn lemma_spans_read_back(hunks: Seq<BinaryHunkView>, pad: Seq<char>)
    requires
        are_spans(hunks),
        is_pad(pad),
        hunks.len() > 0,
    ensures
        spans_of(spans_text(hunks, pad)) == Ok::<Seq<BinaryHunkView>, Seq<char>>(hunks),
        !opens_with_header(lines_of(spans_text(hunks, pad))),
{
    let all = Seq::new(hunks.len(), |i: int| written_span(hunks[i], pad));
    assert forall|i: int| 0 <= i < all.len() implies is_line(#[trigger] all[i]) && trim(all[i])
        != "*** Begin Patch"@ && all[i].len() > 0 by {
        assert(is_span(hunks[i]));
        lemma_span_reads(hunks[i], pad);
        lemma_no_header(hunks[i], pad);
    }
    assert(all.last() == all[all.len() - 1]);
    lemma_lines_undo_join(all);
    lemma_spans_read(hunks, pad, hunks.len() as int);
    assert(hunks.take(hunks.len() as int) =~= hunks);
    assert(is_span(hunks[0]));
    lemma_span_reads(hunks[0], pad);
    lemma_no_header(hunks[0], pad);
    assert(all[0] == written_span(hunks[0], pad));
}

// ---------------------------------------------------------------------------
// What spans do
// ---------------------------------------------------------------------------
/// Whether a file of `total` bytes has the place that a span names.
pub open spec fn span_fits(h: BinaryHunkView, total: int) -> bool {
    match h.anchor {
        BinaryAnchor::Replace { offset, len } => offset + len <= total,
        BinaryAnchor::Delete { offset, len } => offset + len <= total,
        BinaryAnchor::Append { target, .. } => target matches BinaryAppendTarget::Offset(n) ==> n
            <= total,
    }
}

/// The first byte that a span is about, or the place in front of which bytes go.
pub open spec fn span_start(h: BinaryHunkView, total: int) -> int {
    match h.anchor {
        BinaryAnchor::Replace { offset, .. } => offset as int,
        BinaryAnchor::Delete { offset, .. } => offset as int,
        BinaryAnchor::Append { target, .. } => match target {
            BinaryAppendTarget::Offset(n) => n as int,
            BinaryAppendTarget::End => total,
        },
    }
}

/// How many bytes of the file a span takes away.
pub open spec fn span_removes(h: BinaryHunkView) -> int {
    match h.anchor {
        BinaryAnchor::Replace { len, .. } => len as int,
        BinaryAnchor::Delete { len, .. } => len as int,
        BinaryAnchor::Append { .. } => 0,
    }
}

proof fn lemma_span_edit(h: BinaryHunkView, total: int)
    requires
        total >= 0,
    ensures
        span_edit(h, total) is Ok <==> span_fits(h, total),
        span_fits(h, total) ==> span_edit(h, total) == Ok::<EditView<u8>, Seq<char>>(
            EditView {
                start: span_start(h, total),
                end: span_start(h, total) + span_removes(h),
                replacement: h.bytes,
                order: h.order,
            },
        ),
{
}

/// One span is applied where the file has its place, and refused where it does not. It
/// leaves every byte outside that place as it was, puts its own bytes there, and tells
/// how many bytes came and went.
pub proof fn lemma_span_changes_its_place(bytes: Seq<u8>, h: BinaryHunkView, pad: Seq<char>)
    requires
        is_span(h),
        h.order == 0,
        is_pad(pad),
    ensures
        binary_patched(bytes, spans_text(seq![h], pad)) is Ok <==> span_fits(
            h,
            bytes.len() as int,
        ),
        span_fits(h, bytes.len() as int) ==> ({
            let s = span_start(h, bytes.len() as int);
            binary_patched(bytes, spans_text(seq![h], pad)) == Ok::<
                BinaryPatchAppliedView,
                Seq<char>,
            >(
                BinaryPatchAppliedView {
                    bytes: bytes.take(s) + h.bytes + bytes.skip(s + span_removes(h)),
                    additions: h.bytes.len() as int,
                    deletions: span_removes(h),
                },
            )
        }),
{
    let hunks = seq![h];
    let total = bytes.len() as int;
    lemma_spans_read_back(hunks, pad);
    lemma_span_edit(h, total);
    reveal_with_fuel(span_edits, 2);
    reveal_with_fuel(bytes_added, 2);
    reveal_with_fuel(bytes_removed, 2);
    assert(hunks.drop_last() =~= seq![]);
    if span_fits(h, total) {
        let e = span_edit(h, total)->Ok_0;
        assert(span_edits(hunks, total) == Ok::<Seq<EditView<u8>>, Seq<char>>(
            Seq::<EditView<u8>>::empty().push(e),
        ));
        assert(Seq::<EditView<u8>>::empty().push(e) =~= seq![e]);
        assert(seq![e].drop_last() =~= seq![]);
        lemma_one_edit(bytes, e);
    }
}

/// Bytes that are overwritten by a span `offset-len:HEX` are those that the span writes;
/// the file keeps its length and every other byte.
pub proof fn lemma_overwritten_bytes(
    bytes: Seq<u8>,
    offset: usize,
    len: usize,
    new: Seq<u8>,
    i: int,
)
    requires
        len >= 1,
        new.len() == len,
        offset + len <= bytes.len(),
        0 <= i < bytes.len(),
    ensures
        ({
            let patch = dec(offset as nat) + "-"@ + dec(len as nat) + ":"@ + spaced_hex(new);
            &&& binary_patched(bytes, patch) matches Ok(done) && done.bytes.len() == bytes.len()
                && done.bytes[i] == (if offset <= i < offset + len {
                new[i - offset]
            } else {
                bytes[i]
            }) && done.additions == len && done.deletions == len
        }),
{
    let h = BinaryHunkView {
        anchor: BinaryAnchor::Replace { offset, len },
        bytes: new,
        order: 0,
    };
    let nothing = Seq::<char>::empty();
    lemma_span_changes_its_place(bytes, h, nothing);
    let hunks = seq![h];
    let all = Seq::new(hunks.len(), |i: int| written_span(hunks[i], nothing));
    let patch = dec(offset as nat) + "-"@ + dec(len as nat) + ":"@ + spaced_hex(new);
    assert(written_span(h, nothing) =~= patch);
    assert(join(all, "\n"@) == all[0]);
}

proof fn lemma_each_span_edits(hunks: Seq<BinaryHunkView>, total: int)
    ensures
        span_edits(hunks, total) is Ok <==> forall|i: int|
            0 <= i < hunks.len() ==> span_edit(#[trigger] hunks[i], total) is Ok,
        span_edits(hunks, total) matches Ok(edits) ==> edits.len() == hunks.len() && forall|i: int|
            0 <= i < hunks.len() ==> span_edit(hunks[i], total) == Ok::<EditView<u8>, Seq<char>>(
                #[trigger] edits[i],
            ),
    decreases hunks.len(),
{
    if hunks.len() > 0 {
        let before = hunks.drop_last();
        lemma_each_span_edits(before, total);
        if span_edits(before, total) is Ok && span_edit(hunks.last(), total) is Ok {
            let edits = span_edits(hunks, total)->Ok_0;
            assert forall|i: int| 0 <= i < hunks.len() implies span_edit(#[trigger] hunks[i], total)
                is Ok && span_edit(hunks[i], total) == Ok::<EditView<u8>, Seq<char>>(edits[i]) by {
                if i < before.len() {
                    assert(before[i] == hunks[i]);
                    assert(span_edits(before, total)->Ok_0[i] == edits[i]);
                }
            }
        } else if span_edits(before, total) is Err {
            let i = choose|i: int| 0 <= i < before.len() && span_edit(#[trigger] before[i], total) is Err;
            assert(hunks[i] == before[i]);
        } else {
            assert(span_edit(hunks[hunks.len() - 1], total) is Err);
        }
    }
}

/// A span that lies behind all others changes its place in what the others leave: the bytes
/// of the others stay, and it takes away and puts in what it would alone. What is added and
/// taken away is counted together.
pub proof fn lemma_span_behind_others(
    bytes: Seq<u8>,
    hunks: Seq<BinaryHunkView>,
    h: BinaryHunkView,
    pad: Seq<char>,
)
    requires
        hunks.len() > 0,
        is_pad(pad),
        is_span(h),
        h.order == hunks.len(),
        span_fits(h, bytes.len() as int),
        forall|i: int|
            0 <= i < hunks.len() ==> is_span(#[trigger] hunks[i]) && hunks[i].order == i
                && span_fits(hunks[i], bytes.len() as int) && span_start(
                hunks[i],
                bytes.len() as int,
            ) + span_removes(hunks[i]) <= span_start(h, bytes.len() as int),
        binary_patched(bytes, spans_text(hunks, pad)) is Ok,
    ensures
        ({
            let before = binary_patched(bytes, spans_text(hunks, pad))->Ok_0;
            let out = before.bytes;
            let p = out.len() - (bytes.len() - span_start(h, bytes.len() as int));
            binary_patched(bytes, spans_text(hunks.push(h), pad)) == Ok::<
                BinaryPatchAppliedView,
                Seq<char>,
            >(
                BinaryPatchAppliedView {
                    bytes: out.take(p) + h.bytes + out.skip(p + span_removes(h)),
                    additions: before.additions + h.bytes.len(),
                    deletions: before.deletions + span_removes(h),
                },
            )
        }),
{
    let total = bytes.len() as int;
    let all = hunks.push(h);
    assert forall|i: int| 0 <= i < all.len() implies is_span(#[trigger] all[i]) && all[i].order == i by {
        if i < hunks.len() {
            assert(all[i] == hunks[i]);
        }
    }
    lemma_spans_read_back(hunks, pad);
    lemma_spans_read_back(all, pad);
    lemma_each_span_edits(hunks, total);
    lemma_span_edit(h, total);
    assert(all.drop_last() =~= hunks);
    let edits = span_edits(hunks, total)->Ok_0;
    let e = span_edit(h, total)->Ok_0;
    assert(span_edits(all, total) == Ok::<Seq<EditView<u8>>, Seq<char>>(edits.push(e)));
    assert forall|i: int| 0 <= i < edits.len() implies 0 <= (#[trigger] edits[i]).start
        <= edits[i].end <= total && edits[i].end <= e.start && edits[i].order <= e.order by {
        lemma_span_edit(hunks[i], total);
    }
    lemma_edit_behind_others(bytes, edits, e);
    assert(edits.push(e).drop_last() =~= edits);
}

/// What several edits add and take away is what each of them does, together.
pub proof fn lemma_counts_by_parts(a: Seq<EditView<u8>>, b: Seq<EditView<u8>>)
    ensures
        bytes_added(a + b) == bytes_added(a) + bytes_added(b),
        bytes_removed(a + b) == bytes_removed(a) + bytes_removed(b),
    decreases b.len(),
{
    if b.len() == 0 {
        assert(a + b =~= a);
    } else {
        assert((a + b).drop_last() =~= a + b.drop_last());
        lemma_counts_by_parts(a, b.drop_last());
    }
}

} // verus!
