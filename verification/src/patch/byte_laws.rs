//! What hunks of bytes mean: those that are written down are read as what was written,
//! and a file that one is applied to has its bytes in the place that it names.

use crate::edits::laws::{lemma_edit_behind_others, lemma_one_edit};
use crate::edits::EditView;
use crate::hex::{lemma_hex_reads_back, spaced_hex};
use crate::patch::bytes::{
    binary_anchor_of, binary_hunk_edit, binary_hunk_edits, binary_hunks_of, body_bytes, byte_count,
    byte_len, byte_offset, first_body_fault, is_header, patched_bytes, read_lines, BinaryAnchor,
    BinaryHunkView, BinaryInsertTarget, ByteLen,
};
use crate::patch::line_laws::{
    is_one_plain_line, lemma_first_word, lemma_header_words, lemma_plain_line, lemma_three_words,
    lemma_two_words,
};
use crate::text::laws::{is_line, lemma_dec_is_digits, lemma_lines_undo_join};
use crate::text::more_laws::is_word;
use crate::text::number::{dec, lemma_dec_reads_back};
use crate::text::split::{join, lines as lines_of, trim, words};
use crate::tools::file_action::binary_patch::{
    binary_patched, bytes_added, bytes_removed, opens_with_header, BinaryPatchAppliedView,
};
use crate::tools::file_action::span_laws::lemma_spaced_hex_chars;
use vstd::prelude::*;

verus! {

// ---------------------------------------------------------------------------
// Hunks as they are written
// ---------------------------------------------------------------------------
/// A number of bytes, as a header writes it: `-1` stands for all that are left.
pub open spec fn written_len(len: ByteLen) -> Seq<char> {
    match len {
        ByteLen::Count(n) => dec(n as nat),
        ByteLen::Rest => "-1"@,
    }
}

/// Where bytes go, as a header writes it.
pub open spec fn written_target(target: BinaryInsertTarget) -> Seq<char> {
    match target {
        BinaryInsertTarget::Start => "0"@,
        BinaryInsertTarget::Offset(n) => dec(n as nat),
        BinaryInsertTarget::End => "-1"@,
    }
}

/// The header of a hunk.
pub open spec fn written_header(anchor: BinaryAnchor) -> Seq<char> {
    match anchor {
        BinaryAnchor::Replace { offset, len } => "replace"@ + " "@ + dec(offset as nat) + " "@
            + written_len(len),
        BinaryAnchor::Delete { offset, len } => "delete"@ + " "@ + dec(offset as nat) + " "@
            + written_len(len),
        BinaryAnchor::Insert { target } => "insert"@ + " "@ + written_target(target),
    }
}

/// The lines of a hunk: its header, and its bytes on lines of their own, some on each.
pub open spec fn written_hunk(anchor: BinaryAnchor, chunks: Seq<Seq<u8>>) -> Seq<Seq<char>> {
    seq![written_header(anchor)] + Seq::new(chunks.len(), |i: int| "+"@ + spaced_hex(chunks[i]))
}

/// The bytes of several chunks, one after the other.
pub open spec fn all_bytes(chunks: Seq<Seq<u8>>) -> Seq<u8>
    decreases chunks.len(),
{
    if chunks.len() == 0 {
        seq![]
    } else {
        all_bytes(chunks.drop_last()) + chunks.last()
    }
}

/// Whether a header can be written down.
pub open spec fn is_anchor(anchor: BinaryAnchor) -> bool {
    match anchor {
        BinaryAnchor::Replace { len, .. } => len matches ByteLen::Count(n) ==> n >= 1,
        BinaryAnchor::Delete { len, .. } => len matches ByteLen::Count(n) ==> n >= 1,
        BinaryAnchor::Insert { target } => target matches BinaryInsertTarget::Offset(n) ==> n >= 1,
    }
}

/// The lines of hunks, one after the other.
pub open spec fn written_hunks(anchors: Seq<BinaryAnchor>, bodies: Seq<Seq<Seq<u8>>>) -> Seq<
    Seq<char>,
>
    decreases anchors.len(),
{
    if anchors.len() == 0 {
        seq![]
    } else {
        written_hunk(anchors[0], bodies[0]) + written_hunks(
            anchors.drop_first(),
            bodies.drop_first(),
        )
    }
}

/// The hunks with these places and bytes, in this order from the number `first` on.
pub open spec fn hunks_with(
    anchors: Seq<BinaryAnchor>,
    bodies: Seq<Seq<Seq<u8>>>,
    first: int,
) -> Seq<BinaryHunkView> {
    Seq::new(
        anchors.len(),
        |i: int|
            BinaryHunkView { anchor: anchors[i], bytes: all_bytes(bodies[i]), order: first + i },
    )
}

/// Whether a hunk can be written down: one that deletes has no bytes, any other has some.
pub open spec fn is_hunk(anchor: BinaryAnchor, chunks: Seq<Seq<u8>>) -> bool {
    &&& is_anchor(anchor)
    &&& anchor is Delete <==> chunks.len() == 0
    &&& forall|i: int| 0 <= i < chunks.len() ==> (#[trigger] chunks[i]).len() > 0
}

pub open spec fn are_hunks(anchors: Seq<BinaryAnchor>, bodies: Seq<Seq<Seq<u8>>>) -> bool {
    &&& anchors.len() == bodies.len()
    &&& forall|i: int| 0 <= i < anchors.len() ==> is_hunk(#[trigger] anchors[i], bodies[i])
}

// ---------------------------------------------------------------------------
// Reading
// ---------------------------------------------------------------------------
proof fn lemma_numbers_read(n: usize)
    ensures
        byte_offset(dec(n as nat)) == Ok::<usize, Seq<char>>(n),
        n >= 1 ==> byte_count(dec(n as nat)) == Ok::<usize, Seq<char>>(n),
        n >= 1 ==> dec(n as nat) != "0"@,
        dec(n as nat) != "-1"@,
        is_word(dec(n as nat)),
{
    lemma_header_words();
    lemma_dec_reads_back(n as nat, usize::MAX as nat);
    lemma_dec_reads_back(0, usize::MAX as nat);
    lemma_dec_is_digits(n as nat);
}

proof fn lemma_len_reads(len: ByteLen)
    requires
        len matches ByteLen::Count(n) ==> n >= 1,
    ensures
        byte_len(written_len(len)) == Ok::<ByteLen, Seq<char>>(len),
        is_word(written_len(len)),
{
    lemma_header_words();
    if let ByteLen::Count(n) = len {
        lemma_numbers_read(n);
    }
}

proof fn lemma_span_header_reads(word: Seq<char>, offset: usize, len: ByteLen)
    requires
        word == "replace"@ || word == "delete"@,
        len matches ByteLen::Count(n) ==> n >= 1,
    ensures
        ({
            let s = word + " "@ + dec(offset as nat) + " "@ + written_len(len);
            &&& word == "replace"@ ==> binary_anchor_of(s) == Ok::<
                Option<BinaryAnchor>,
                Seq<char>,
            >(Some(BinaryAnchor::Replace { offset, len }))
            &&& word == "delete"@ ==> binary_anchor_of(s) == Ok::<
                Option<BinaryAnchor>,
                Seq<char>,
            >(Some(BinaryAnchor::Delete { offset, len }))
            &&& is_header(s)
            &&& is_one_plain_line(s)
            &&& s[0] != '*'
        }),
{
    lemma_header_words();
    lemma_numbers_read(offset);
    lemma_len_reads(len);
    lemma_three_words(word, dec(offset as nat), written_len(len));
    let s = word + " "@ + dec(offset as nat) + " "@ + written_len(len);
    let w = words(s);
    assert(w.len() == 3 && w[0] == word && w[1] == dec(offset as nat) && w[2] == written_len(len));
    assert(s[0] == word[0]);
}

proof fn lemma_insert_header_reads(target: BinaryInsertTarget)
    requires
        target matches BinaryInsertTarget::Offset(n) ==> n >= 1,
    ensures
        ({
            let s = "insert"@ + " "@ + written_target(target);
            &&& binary_anchor_of(s) == Ok::<Option<BinaryAnchor>, Seq<char>>(
                Some(BinaryAnchor::Insert { target }),
            )
            &&& is_header(s)
            &&& is_one_plain_line(s)
            &&& s[0] != '*'
        }),
{
    lemma_header_words();
    if let BinaryInsertTarget::Offset(n) = target {
        lemma_numbers_read(n);
    }
    lemma_two_words("insert"@, written_target(target));
    let s = "insert"@ + " "@ + written_target(target);
    let w = words(s);
    assert(w.len() == 2 && w[0] == "insert"@ && w[1] == written_target(target));
    assert(s[0] == "insert"@[0]);
}

proof fn lemma_header_reads(anchor: BinaryAnchor)
    requires
        is_anchor(anchor),
    ensures
        binary_anchor_of(written_header(anchor)) == Ok::<Option<BinaryAnchor>, Seq<char>>(
            Some(anchor),
        ),
        is_header(written_header(anchor)),
        is_one_plain_line(written_header(anchor)),
        written_header(anchor)[0] != '*',
{
    match anchor {
        BinaryAnchor::Replace { offset, len } => lemma_span_header_reads("replace"@, offset, len),
        BinaryAnchor::Delete { offset, len } => lemma_span_header_reads("delete"@, offset, len),
        BinaryAnchor::Insert { target } => lemma_insert_header_reads(target),
    }
}

proof fn lemma_chunk_reads(chunk: Seq<u8>)
    requires
        chunk.len() > 0,
    ensures
        body_bytes("+"@ + spaced_hex(chunk)) == Ok::<Seq<u8>, Seq<char>>(chunk),
        binary_anchor_of("+"@ + spaced_hex(chunk)) == Ok::<Option<BinaryAnchor>, Seq<char>>(None),
        is_one_plain_line("+"@ + spaced_hex(chunk)),
        ("+"@ + spaced_hex(chunk))[0] == '+',
{
    reveal_strlit("+");
    lemma_header_words();
    lemma_spaced_hex_chars(chunk);
    lemma_hex_reads_back(chunk);
    let hex = spaced_hex(chunk);
    let s = "+"@ + hex;
    assert(s[0] == '+');
    assert(s.last() == hex.last());
    assert forall|i: int| 0 <= i < s.len() implies (#[trigger] s[i]) != '\n' && s[i] != '\r' by {
        if i > 0 {
            assert(s[i] == hex[i - 1]);
        }
    }
    lemma_first_word(s);
    assert(s.take("+"@.len() as int) =~= "+"@);
    assert(s.skip("+"@.len() as int) =~= hex);
}

proof fn lemma_chunks_read(
    earlier: Seq<BinaryHunkView>,
    anchor: BinaryAnchor,
    order: int,
    chunks: Seq<Seq<u8>>,
    k: int,
    rest: Seq<Seq<char>>,
)
    requires
        is_hunk(anchor, chunks),
        0 <= k <= chunks.len(),
    ensures
        read_lines(
            earlier.push(BinaryHunkView { anchor, bytes: all_bytes(chunks.take(k)), order }),
            Seq::new(chunks.len(), |i: int| "+"@ + spaced_hex(chunks[i])).skip(k) + rest,
        ) == read_lines(
            earlier.push(BinaryHunkView { anchor, bytes: all_bytes(chunks), order }),
            rest,
        ),
    decreases chunks.len() - k,
{
    let all = Seq::new(chunks.len(), |i: int| "+"@ + spaced_hex(chunks[i]));
    let now = BinaryHunkView { anchor, bytes: all_bytes(chunks.take(k)), order };
    if k == chunks.len() {
        assert(chunks.take(k) =~= chunks);
        assert(all.skip(k) + rest =~= rest);
    } else {
        assert(chunks[k].len() > 0);
        lemma_chunk_reads(chunks[k]);
        lemma_plain_line(all[k]);
        lemma_chunks_read(earlier, anchor, order, chunks, k + 1, rest);
        let more = all.skip(k) + rest;
        assert(more[0] == all[k]);
        assert(more.drop_first() =~= all.skip(k + 1) + rest);
        let hunks = earlier.push(now);
        assert(hunks.last() == now);
        assert(hunks.drop_last() =~= earlier);
        assert(chunks.take(k + 1).drop_last() =~= chunks.take(k));
    }
}

proof fn lemma_bytes_are_there(chunks: Seq<Seq<u8>>)
    requires
        forall|i: int| 0 <= i < chunks.len() ==> (#[trigger] chunks[i]).len() > 0,
    ensures
        all_bytes(chunks).len() > 0 <==> chunks.len() > 0,
{
    if chunks.len() > 0 {
        assert(chunks[chunks.len() - 1].len() > 0);
    }
}

proof fn lemma_hunks_read(
    earlier: Seq<BinaryHunkView>,
    anchors: Seq<BinaryAnchor>,
    bodies: Seq<Seq<Seq<u8>>>,
)
    requires
        are_hunks(anchors, bodies),
    ensures
        read_lines(earlier, written_hunks(anchors, bodies)) == Ok::<
            Seq<BinaryHunkView>,
            Seq<char>,
        >(earlier + hunks_with(anchors, bodies, earlier.len() as int)),
        first_body_fault(hunks_with(anchors, bodies, earlier.len() as int)) is None,
    decreases anchors.len(),
{
    let n = earlier.len() as int;
    let hunks = hunks_with(anchors, bodies, n);
    if anchors.len() == 0 {
        assert(earlier + hunks =~= earlier);
    } else {
        let (anchor, chunks) = (anchors[0], bodies[0]);
        let (more_anchors, more_bodies) = (anchors.drop_first(), bodies.drop_first());
        let rest = written_hunks(more_anchors, more_bodies);
        assert(is_hunk(anchor, chunks));
        assert forall|i: int| 0 <= i < more_anchors.len() implies is_hunk(
            #[trigger] more_anchors[i],
            more_bodies[i],
        ) by {
            assert(is_hunk(anchors[i + 1], bodies[i + 1]));
        }
        lemma_header_reads(anchor);
        lemma_plain_line(written_header(anchor));
        lemma_chunks_read(earlier, anchor, n, chunks, 0, rest);
        lemma_bytes_are_there(chunks);
        let h = BinaryHunkView { anchor, bytes: all_bytes(chunks), order: n };
        let all = Seq::new(chunks.len(), |i: int| "+"@ + spaced_hex(chunks[i]));
        let whole = written_hunk(anchor, chunks) + rest;
        assert(whole[0] == written_header(anchor));
        assert(whole.drop_first() =~= all.skip(0) + rest);
        assert(chunks.take(0) =~= seq![]);
        assert(all_bytes(seq![]) =~= seq![]);
        lemma_hunks_read(earlier.push(h), more_anchors, more_bodies);
        assert(earlier.push(h) + hunks_with(more_anchors, more_bodies, n + 1) =~= earlier + hunks);
        assert(hunks.drop_first() =~= hunks_with(more_anchors, more_bodies, n + 1));
        assert(hunks[0] == h);
    }
}

proof fn lemma_hunks_are_lines(anchors: Seq<BinaryAnchor>, bodies: Seq<Seq<Seq<u8>>>)
    requires
        are_hunks(anchors, bodies),
        anchors.len() > 0,
    ensures
        ({
            let all = written_hunks(anchors, bodies);
            &&& all.len() > 0
            &&& all[0] == written_header(anchors[0])
            &&& forall|i: int|
                0 <= i < all.len() ==> is_one_plain_line(#[trigger] all[i]) && all[i][0] != '*'
        }),
    decreases anchors.len(),
{
    let (anchor, chunks) = (anchors[0], bodies[0]);
    let (more_anchors, more_bodies) = (anchors.drop_first(), bodies.drop_first());
    let head = written_hunk(anchor, chunks);
    let tail = written_hunks(more_anchors, more_bodies);
    let all = written_hunks(anchors, bodies);
    assert(is_hunk(anchor, chunks));
    lemma_header_reads(anchor);
    assert forall|i: int| 0 <= i < head.len() implies is_one_plain_line(#[trigger] head[i])
        && head[i][0] != '*' by {
        if i > 0 {
            assert(chunks[i - 1].len() > 0);
            lemma_chunk_reads(chunks[i - 1]);
        }
    }
    if more_anchors.len() > 0 {
        assert forall|i: int| 0 <= i < more_anchors.len() implies is_hunk(
            #[trigger] more_anchors[i],
            more_bodies[i],
        ) by {
            assert(is_hunk(anchors[i + 1], bodies[i + 1]));
        }
        lemma_hunks_are_lines(more_anchors, more_bodies);
    }
    assert forall|i: int| 0 <= i < all.len() implies is_one_plain_line(#[trigger] all[i])
        && all[i][0] != '*' by {
        if i < head.len() {
            assert(all[i] == head[i]);
        } else {
            assert(all[i] == tail[i - head.len()]);
        }
    }
}

/// Hunks that are written down are read as what was written, one after the other: each
/// with its place, all of its bytes and the order in which it stands.
pub proof fn lemma_byte_hunks_read_back(anchors: Seq<BinaryAnchor>, bodies: Seq<Seq<Seq<u8>>>)
    requires
        are_hunks(anchors, bodies),
        anchors.len() > 0,
    ensures
        binary_hunks_of(join(written_hunks(anchors, bodies), "\n"@)) == Ok::<
            Seq<BinaryHunkView>,
            Seq<char>,
        >(hunks_with(anchors, bodies, 0)),
        opens_with_header(lines_of(join(written_hunks(anchors, bodies), "\n"@))),
{
    reveal_strlit("*** Begin Patch");
    let all = written_hunks(anchors, bodies);
    lemma_hunks_are_lines(anchors, bodies);
    assert forall|i: int| 0 <= i < all.len() implies is_line(#[trigger] all[i]) && trim(all[i])
        != "*** Begin Patch"@ by {
        lemma_plain_line(all[i]);
        assert("*** Begin Patch"@[0] == '*');
    }
    assert(is_one_plain_line(all[all.len() - 1]));
    lemma_lines_undo_join(all);
    lemma_hunks_read(seq![], anchors, bodies);
    assert(Seq::<BinaryHunkView>::empty() + hunks_with(anchors, bodies, 0) =~= hunks_with(
        anchors,
        bodies,
        0,
    ));
    assert(is_hunk(anchors[0], bodies[0]));
    lemma_header_reads(anchors[0]);
    lemma_plain_line(all[0]);
}

// ---------------------------------------------------------------------------
// What hunks do
// ---------------------------------------------------------------------------
/// The first byte that a hunk is about, or the place in front of which bytes go.
pub open spec fn hunk_start(anchor: BinaryAnchor, total: int) -> int {
    match anchor {
        BinaryAnchor::Replace { offset, .. } => offset as int,
        BinaryAnchor::Delete { offset, .. } => offset as int,
        BinaryAnchor::Insert { target } => match target {
            BinaryInsertTarget::Start => 0,
            BinaryInsertTarget::Offset(n) => n as int,
            BinaryInsertTarget::End => total,
        },
    }
}

/// How many bytes of the file a hunk takes away: as many as it says, or all that are left.
pub open spec fn hunk_takes(anchor: BinaryAnchor, total: int) -> int {
    match anchor {
        BinaryAnchor::Replace { offset, len } => match len {
            ByteLen::Count(n) => n as int,
            ByteLen::Rest => total - offset,
        },
        BinaryAnchor::Delete { offset, len } => match len {
            ByteLen::Count(n) => n as int,
            ByteLen::Rest => total - offset,
        },
        BinaryAnchor::Insert { .. } => 0,
    }
}

/// Whether a file of `total` bytes has the place that a hunk names.
pub open spec fn has_place(anchor: BinaryAnchor, total: int) -> bool {
    match anchor {
        BinaryAnchor::Insert { target } => target matches BinaryInsertTarget::Offset(n) ==> n
            < total,
        _ => hunk_start(anchor, total) < total && hunk_start(anchor, total) + hunk_takes(
            anchor,
            total,
        ) <= total,
    }
}

/// One hunk is applied where the file has its place, and refused where it does not. It
/// leaves every byte outside that place as it was, puts its own bytes there, and tells
/// how many bytes came and went.
pub proof fn lemma_byte_hunk_changes_its_place(
    bytes: Seq<u8>,
    anchor: BinaryAnchor,
    chunks: Seq<Seq<u8>>,
)
    requires
        is_hunk(anchor, chunks),
    ensures
        ({
            let patch = join(written_hunk(anchor, chunks), "\n"@);
            let total = bytes.len() as int;
            let s = hunk_start(anchor, total);
            &&& binary_patched(bytes, patch) is Ok <==> has_place(anchor, total)
            &&& has_place(anchor, total) ==> binary_patched(bytes, patch) == Ok::<
                BinaryPatchAppliedView,
                Seq<char>,
            >(
                BinaryPatchAppliedView {
                    bytes: bytes.take(s) + all_bytes(chunks) + bytes.skip(
                        s + hunk_takes(anchor, total),
                    ),
                    additions: all_bytes(chunks).len() as int,
                    deletions: hunk_takes(anchor, total),
                },
            )
        }),
{
    let total = bytes.len() as int;
    let (anchors, bodies) = (seq![anchor], seq![chunks]);
    lemma_byte_hunks_read_back(anchors, bodies);
    reveal_with_fuel(written_hunks, 2);
    assert(anchors.drop_first() =~= seq![]);
    assert(written_hunks(anchors, bodies) =~= written_hunk(anchor, chunks));
    let h = BinaryHunkView { anchor, bytes: all_bytes(chunks), order: 0 };
    let hunks = hunks_with(anchors, bodies, 0);
    assert(hunks =~= seq![h]);
    reveal_with_fuel(binary_hunk_edits, 2);
    reveal_with_fuel(bytes_added, 2);
    reveal_with_fuel(bytes_removed, 2);
    assert(hunks.drop_last() =~= seq![]);
    if has_place(anchor, total) {
        let e = binary_hunk_edit(h, total)->Ok_0;
        assert(Seq::<EditView<u8>>::empty().push(e) =~= seq![e]);
        assert(seq![e].drop_last() =~= seq![]);
        lemma_one_edit(bytes, e);
    }
}

proof fn lemma_each_byte_hunk_edits(hunks: Seq<BinaryHunkView>, total: int)
    ensures
        binary_hunk_edits(hunks, total) is Ok <==> forall|i: int|
            0 <= i < hunks.len() ==> binary_hunk_edit(#[trigger] hunks[i], total) is Ok,
        binary_hunk_edits(hunks, total) matches Ok(edits) ==> edits.len() == hunks.len() && forall|i: int|
            0 <= i < hunks.len() ==> binary_hunk_edit(hunks[i], total) == Ok::<EditView<u8>, Seq<char>>(
                #[trigger] edits[i],
            ),
    decreases hunks.len(),
{
    if hunks.len() > 0 {
        let before = hunks.drop_last();
        lemma_each_byte_hunk_edits(before, total);
        if binary_hunk_edits(before, total) is Ok && binary_hunk_edit(hunks.last(), total) is Ok {
            let edits = binary_hunk_edits(hunks, total)->Ok_0;
            assert forall|i: int| 0 <= i < hunks.len() implies binary_hunk_edit(#[trigger] hunks[i], total)
                is Ok && binary_hunk_edit(hunks[i], total) == Ok::<EditView<u8>, Seq<char>>(edits[i]) by {
                if i < before.len() {
                    assert(before[i] == hunks[i]);
                    assert(binary_hunk_edits(before, total)->Ok_0[i] == edits[i]);
                }
            }
        } else if binary_hunk_edits(before, total) is Err {
            let i = choose|i: int| 0 <= i < before.len() && binary_hunk_edit(#[trigger] before[i], total) is Err;
            assert(hunks[i] == before[i]);
        } else {
            assert(binary_hunk_edit(hunks[hunks.len() - 1], total) is Err);
        }
    }
}

/// A hunk of bytes that lies behind all others changes its place in what the others leave.
pub proof fn lemma_byte_hunk_behind_others(
    bytes: Seq<u8>,
    hunks: Seq<BinaryHunkView>,
    h: BinaryHunkView,
)
    requires
        has_place(h.anchor, bytes.len() as int),
        forall|i: int|
            0 <= i < hunks.len() ==> has_place((#[trigger] hunks[i]).anchor, bytes.len() as int)
                && hunks[i].order <= h.order && hunk_start(hunks[i].anchor, bytes.len() as int)
                + hunk_takes(hunks[i].anchor, bytes.len() as int) <= hunk_start(
                h.anchor,
                bytes.len() as int,
            ),
        patched_bytes(bytes, hunks) is Ok,
    ensures
        ({
            let total = bytes.len() as int;
            let out = patched_bytes(bytes, hunks)->Ok_0;
            let p = out.len() - (total - hunk_start(h.anchor, total));
            patched_bytes(bytes, hunks.push(h)) == Ok::<Seq<u8>, Seq<char>>(
                out.take(p) + h.bytes + out.skip(p + hunk_takes(h.anchor, total)),
            )
        }),
{
    let total = bytes.len() as int;
    let all = hunks.push(h);
    assert(all.drop_last() =~= hunks);
    lemma_each_byte_hunk_edits(hunks, total);
    let edits = binary_hunk_edits(hunks, total)->Ok_0;
    let e = binary_hunk_edit(h, total)->Ok_0;
    assert(binary_hunk_edits(all, total) == Ok::<Seq<EditView<u8>>, Seq<char>>(edits.push(e)));
    assert forall|i: int| 0 <= i < edits.len() implies 0 <= (#[trigger] edits[i]).start
        <= edits[i].end <= total && edits[i].end <= e.start && edits[i].order <= e.order by {
        assert(has_place(hunks[i].anchor, total));
    }
    lemma_edit_behind_others(bytes, edits, e);
}

} // verus!
