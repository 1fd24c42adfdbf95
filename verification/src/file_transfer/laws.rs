//! What requests for a file transfer mean, and what answers them.

use crate::bytes::{find_bytes, lemma_find_bytes, starts_bytes, utf8_complaint};
use crate::file_transfer::http::{
    head_text, header_lines, header_map, parsed_head, peek_step, prefix_of, read_so_far, reason_of,
    sanitized, HttpRequestView, PeekStep, PrefixMatch,
};
use crate::file_transfer::{
    done_reply, download_head, download_refusal, hash_refusal, header_of, kind_of_transfer,
    number_header, planned_download, planned_upload, refusal, request_path, temp_path, unopened,
    upload_refusal, wanted_bytes, DownloadView, TransferKindView, UploadBodyView, UploadStartView,
    UploadView,
};
use crate::json::{field, text_at, JsonView, NumberView};
use crate::paths::{file_name_of, join_path, lemma_file_is_in_its_directory, parent_of};
use crate::text::laws::{
    has_bare_ends, is_all_blank, lemma_dec_is_digits, lemma_join_from_front, lemma_trim_takes,
};
use crate::text::more_laws::{
    is_word, lemma_blanks_have_no_words, lemma_text_is_found, lemma_words_are_runs, stands_at,
};
use crate::text::number::{dec, parse_unsigned};
use crate::text::split::{find_char, find_text, join, split_text, starts, trim, words};
use crate::text::{is_digit, lower};
use crate::tools::fs::stamp::{stamp_json, FileStampView};
use vstd::prelude::*;
use vstd::utf8::{decode_utf8, encode_utf8};

verus! {

// ---------------------------------------------------------------------------
// Heads of requests
// ---------------------------------------------------------------------------
/// Texts that were joined by line breaks are found again, where there is no carriage
/// return in them.
pub proof fn lemma_lines_of_head(parts: Seq<Seq<char>>)
    requires
        parts.len() > 0,
        forall|i: int| 0 <= i < parts.len() ==> !(#[trigger] parts[i]).contains('\r'),
    ensures
        split_text(join(parts, "\r\n"@), "\r\n"@) == parts,
    decreases parts.len(),
{
    let sep = "\r\n"@;
    reveal_strlit("\r\n");
    let s = join(parts, sep);
    let k = find_text(s, sep);
    lemma_text_is_found(s, sep);
    if parts.len() == 1 {
        reveal_with_fuel(join, 3);
        assert(s =~= parts[0]);
        if k < s.len() {
            assert(s.subrange(k, k + 2)[0] == s[k]);
            assert(parts[0].contains(s[k]));
        }
        assert(split_text(s, sep) =~= parts);
    } else {
        let a = parts[0];
        let rest = parts.drop_first();
        lemma_join_from_front(parts, sep);
        let b = join(rest, sep);
        assert(s.subrange(a.len() as int, a.len() as int + 2) =~= sep);
        assert(stands_at(s, sep, a.len() as int));
        if k < a.len() {
            assert(s.subrange(k, k + 2)[0] == s[k]);
            assert(a.contains(s[k]));
        }
        assert(k == a.len());
        assert(s.take(k) =~= a);
        assert(s.skip(k + 2) =~= b);
        assert forall|i: int| 0 <= i < rest.len() implies !(#[trigger] rest[i]).contains('\r') by {
            assert(rest[i] == parts[i + 1]);
        }
        lemma_lines_of_head(rest);
        assert(seq![a] + rest =~= parts);
    }
}

/// Whether a header can stand in a head.
pub open spec fn is_header(h: (Seq<char>, Seq<char>)) -> bool {
    &&& h.0.len() > 0
    &&& has_bare_ends(h.0)
    &&& !h.0.contains(':')
    &&& !h.0.contains('\r')
    &&& !h.0.contains('\n')
    &&& has_bare_ends(h.1)
    &&& !h.1.contains('\r')
    &&& !h.1.contains('\n')
}

pub open spec fn are_headers(headers: Seq<(Seq<char>, Seq<char>)>) -> bool {
    forall|i: int| 0 <= i < headers.len() ==> is_header(#[trigger] headers[i])
}

/// The line of a header.
pub open spec fn header_line(h: (Seq<char>, Seq<char>)) -> Seq<char> {
    h.0 + ": "@ + h.1
}

/// Whether a header is the last one with its name.
pub open spec fn is_last(headers: Seq<(Seq<char>, Seq<char>)>, i: int) -> bool {
    forall|k: int| i < k < headers.len() ==> lower((#[trigger] headers[k]).0) != lower(headers[i].0)
}

/// Whether a map holds headers: each under its name in lower case, the last of those with
/// one name, and nothing else.
pub open spec fn holds_headers(
    map: Map<Seq<char>, Seq<char>>,
    headers: Seq<(Seq<char>, Seq<char>)>,
) -> bool {
    &&& forall|i: int|
        #![trigger headers[i]]
        0 <= i < headers.len() && is_last(headers, i) ==> map.dom().contains(lower(headers[i].0))
            && map[lower(headers[i].0)] == headers[i].1
    &&& forall|name: Seq<char>| #[trigger]
        map.dom().contains(name) ==> exists|i: int|
            0 <= i < headers.len() && lower((#[trigger] headers[i]).0) == name
}

proof fn lemma_header_is_cut(h: (Seq<char>, Seq<char>))
    requires
        is_header(h),
    ensures
        ({
            let line = header_line(h);
            let k = find_char(line, ':');
            &&& line.len() > 0
            &&& k < line.len()
            &&& trim(line.take(k)) == h.0
            &&& trim(line.skip(k + 1)) == h.1
            &&& !line.contains('\r')
        }),
{
    reveal_strlit(": ");
    let line = header_line(h);
    let n = h.0.len() as int;
    assert(line[n] == ':');
    assert forall|i: int| 0 <= i < n implies line[i] != ':' by {
        assert(h.0.contains(h.0[i]));
    }
    crate::text::split::lemma_find_char(line, ':');
    assert(find_char(line, ':') == n);
    let no = Seq::<char>::empty();
    assert(line.take(n) =~= no + h.0 + no);
    lemma_trim_takes(no, h.0, no);
    assert(line.skip(n + 1) =~= seq![' '] + h.1 + no);
    assert(is_all_blank(seq![' ']));
    lemma_trim_takes(seq![' '], h.1, no);
    assert forall|i: int| 0 <= i < line.len() implies line[i] != '\r' by {
        if i < n {
            assert(h.0.contains(h.0[i]));
        } else if i >= n + 2 {
            assert(h.1.contains(h.1[i - n - 2]));
        }
    }
}

/// The headers of a head are found under their names in lower case; of two with one name
/// the later counts.
pub proof fn lemma_headers_are_found(headers: Seq<(Seq<char>, Seq<char>)>)
    requires
        are_headers(headers),
    ensures
        header_map(Seq::new(headers.len(), |i: int| header_line(headers[i]))) is Ok,
        holds_headers(
            header_map(Seq::new(headers.len(), |i: int| header_line(headers[i])))->Ok_0,
            headers,
        ),
    decreases headers.len(),
{
    let lines = Seq::new(headers.len(), |i: int| header_line(headers[i]));
    if headers.len() > 0 {
        let before = headers.drop_last();
        let h = headers.last();
        assert forall|i: int| 0 <= i < before.len() implies is_header(#[trigger] before[i]) by {
            assert(before[i] == headers[i]);
        }
        lemma_headers_are_found(before);
        assert(lines.drop_last() =~= Seq::new(before.len(), |i: int| header_line(before[i])));
        lemma_header_is_cut(h);
        let old_map = header_map(lines.drop_last())->Ok_0;
        let map = header_map(lines)->Ok_0;
        assert(map == old_map.insert(lower(h.0), h.1));
        assert forall|i: int|
            #![trigger headers[i]]
            0 <= i < headers.len() && is_last(headers, i) implies map.dom().contains(
            lower(headers[i].0),
        ) && map[lower(headers[i].0)] == headers[i].1 by {
            if i < before.len() {
                assert(before[i] == headers[i]);
                assert(lower(headers[headers.len() - 1].0) != lower(headers[i].0));
                assert forall|k: int| i < k < before.len() implies lower((#[trigger] before[k]).0)
                    != lower(before[i].0) by {
                    assert(before[k] == headers[k]);
                }
                assert(is_last(before, i));
            }
        }
        assert forall|name: Seq<char>| #[trigger] map.dom().contains(name) implies exists|i: int|
            0 <= i < headers.len() && lower((#[trigger] headers[i]).0) == name by {
            if old_map.dom().contains(name) {
                let i = choose|i: int|
                    0 <= i < before.len() && lower((#[trigger] before[i]).0) == name;
                assert(headers[i] == before[i]);
            } else {
                assert(headers[headers.len() - 1] == h);
            }
        }
    }
}

/// The first line of a request.
pub open spec fn request_line(method: Seq<char>, path: Seq<char>) -> Seq<char> {
    method + " "@ + path + " HTTP/1.1"@
}

/// The head of a request, as a client writes it.
pub open spec fn request_text(
    method: Seq<char>,
    path: Seq<char>,
    headers: Seq<(Seq<char>, Seq<char>)>,
) -> Seq<char> {
    join(
        seq![request_line(method, path)] + Seq::new(
            headers.len(),
            |i: int| header_line(headers[i]),
        ),
        "\r\n"@,
    )
}

proof fn lemma_request_line_is_read(method: Seq<char>, path: Seq<char>)
    requires
        is_word(method),
        is_word(path),
    ensures
        words(request_line(method, path)) == seq![method, path, "HTTP/1.1"@],
        starts("HTTP/1.1"@, "HTTP/1."@),
        !request_line(method, path).contains('\r'),
{
    reveal_strlit(" ");
    reveal_strlit(" HTTP/1.1");
    reveal_strlit("HTTP/1.1");
    reveal_strlit("HTTP/1.");
    let no = Seq::<char>::empty();
    let blank = seq![' '];
    let version = "HTTP/1.1"@;
    let tail = blank + version + no;
    let line = request_line(method, path);
    assert(line =~= no + method + (blank + path + tail));
    lemma_words_are_runs(no, method, blank + path + tail);
    lemma_words_are_runs(blank, path, tail);
    assert(is_word(version));
    lemma_words_are_runs(blank, version, no);
    lemma_blanks_have_no_words(no);
    assert(words(line) =~= seq![method, path, version]);
    assert("HTTP/1.1"@.take(7) =~= "HTTP/1."@);
    assert forall|i: int| 0 <= i < line.len() implies line[i] != '\r' by {
        let n = method.len();
        if i < n {
            assert(line[i] == method[i]);
        } else if n < i < n + 1 + path.len() {
            assert(line[i] == path[i - n - 1]);
        }
    }
}

/// A head says what its writer meant: the method, the path and every header.
pub proof fn lemma_head_is_read_back(
    method: Seq<char>,
    path: Seq<char>,
    headers: Seq<(Seq<char>, Seq<char>)>,
)
    requires
        is_word(method),
        is_word(path),
        are_headers(headers),
    ensures
        ({
            let r = parsed_head(request_text(method, path, headers));
            &&& r is Ok
            &&& r->Ok_0.0 == method
            &&& r->Ok_0.1 == path
            &&& holds_headers(r->Ok_0.2, headers)
        }),
{
    let rows = Seq::new(headers.len(), |i: int| header_line(headers[i]));
    let parts = seq![request_line(method, path)] + rows;
    lemma_request_line_is_read(method, path);
    assert forall|i: int| 0 <= i < parts.len() implies !(#[trigger] parts[i]).contains('\r') by {
        if i > 0 {
            lemma_header_is_cut(headers[i - 1]);
        }
    }
    lemma_lines_of_head(parts);
    assert(parts.skip(1) =~= rows);
    lemma_headers_are_found(headers);
}

/// The bytes of a request up to the first blank line are its head, and all that follow
/// are the start of its body.
pub proof fn lemma_body_follows_head(head: Seq<u8>, body: Seq<u8>)
    requires
        head.len() + 4 + body.len() <= 65_536,
        utf8_complaint(head) is None,
        forall|i: int|
            0 <= i < head.len() ==> !#[trigger] crate::bytes::stands_at(
                head + encode_utf8("\r\n\r\n"@) + body,
                encode_utf8("\r\n\r\n"@),
                i,
            ),
    ensures
        ({
            let r = read_so_far(head + encode_utf8("\r\n\r\n"@) + body);
            let said = parsed_head(decode_utf8(head));
            &&& said is Err ==> r == Err::<Option<HttpRequestView>, Seq<char>>(said->Err_0)
            &&& said is Ok ==> {
                &&& r is Ok
                &&& r->Ok_0 is Some
                &&& r->Ok_0->Some_0.method == said->Ok_0.0
                &&& r->Ok_0->Some_0.path == said->Ok_0.1
                &&& r->Ok_0->Some_0.headers == said->Ok_0.2
                &&& r->Ok_0->Some_0.body_start == body
            }
        }),
{
    let gap = encode_utf8("\r\n\r\n"@);
    reveal_strlit("\r\n\r\n");
    vstd::utf8::is_ascii_chars_encode_utf8("\r\n\r\n"@);
    let b = head + gap + body;
    let n = head.len() as int;
    assert(b.subrange(n, n + gap.len()) =~= gap);
    assert(crate::bytes::stands_at(b, gap, n));
    lemma_find_bytes(b, gap, 0);
    assert(find_bytes(b, gap, 0) == Some(n));
    assert(b.take(n) =~= head);
    assert(b.skip(n + gap.len()) =~= body);
}

/// A request for a file transfer is known by its first line, and any other request is
/// not taken for one.
pub proof fn lemma_transfers_are_known(b: Seq<u8>, end: int)
    requires
        find_bytes(b, encode_utf8("\r\n"@), 0) == Some(end),
        0 <= end <= b.len(),
    ensures
        prefix_of(b) == PrefixMatch::Yes <==> {
            let line = b.take(end);
            ||| starts_bytes(line, encode_utf8("GET /re-file/v1 "@))
            ||| starts_bytes(line, encode_utf8("PUT /re-file/v1 "@))
            ||| starts_bytes(line, encode_utf8("POST /re-file/v1 "@))
        },
        prefix_of(b) != PrefixMatch::NeedMore,
{
}

/// Looking at a connection ends: at once where it is known what comes, or nothing comes,
/// and after twenty looks in any case.
pub proof fn lemma_looking_ends(tries: int, read: int, prefix: PrefixMatch)
    ensures
        peek_step(tries, read, prefix) == PeekStep::Transfer <==> read != 0 && prefix
            == PrefixMatch::Yes,
        peek_step(tries, read, prefix) == PeekStep::LookAgain <==> read != 0 && prefix
            == PrefixMatch::NeedMore && tries < 19,
{
}

// ---------------------------------------------------------------------------
// What requests ask for
// ---------------------------------------------------------------------------
/// The path of file transfers takes downloads and uploads; other paths and other methods
/// are refused, each with its own status.
pub proof fn lemma_kinds_of_transfers(q: HttpRequestView)
    ensures
        kind_of_transfer(q) is Download <==> q.path == "/re-file/v1"@ && q.method == "GET"@,
        kind_of_transfer(q) is Upload <==> q.path == "/re-file/v1"@ && (q.method == "PUT"@
            || q.method == "POST"@),
        kind_of_transfer(q) matches TransferKindView::Refused(r) ==> r.status == (if q.path
            != "/re-file/v1"@ {
            404u16
        } else {
            405u16
        }),
{
    reveal_strlit("GET");
    reveal_strlit("PUT");
    reveal_strlit("POST");
    assert("GET"@[0] == 'G');
    assert("PUT"@[0] == 'P');
}

/// A number in a header is the number that it writes.
pub proof fn lemma_number_header_is_read(
    headers: Map<Seq<char>, Seq<char>>,
    name: Seq<char>,
    n: u64,
)
    ensures
        header_of(headers, name) is None ==> number_header(headers, name) == Ok::<
            Option<u64>,
            Seq<char>,
        >(None),
        header_of(headers, name) == Some(dec(n as nat)) ==> number_header(headers, name) == Ok::<
            Option<u64>,
            Seq<char>,
        >(Some(n)),
{
    lemma_number_is_read(n);
}

proof fn lemma_number_is_read(n: u64)
    ensures
        parse_unsigned(dec(n as nat), u64::MAX as nat) == Some(n as nat),
{
    lemma_dec_is_digits(n as nat);
    let s = dec(n as nat);
    assert(is_digit(s[0]));
}

proof fn lemma_header_names_differ()
    ensures
        "x-re-path"@.len() == 9,
        "x-re-directory"@.len() == 14,
        "x-re-offset"@.len() == 11,
        "x-re-hash"@.len() == 9,
        "x-re-overwrite"@.len() == 14,
        "x-re-sha256"@.len() == 11,
        "content-length"@.len() == 14,
        "x-re-path"@[5] == 'p',
        "x-re-directory"@[0] == 'x',
        "x-re-directory"@[5] == 'd',
        "x-re-offset"@[5] == 'o',
        "x-re-hash"@[5] == 'h',
        "x-re-overwrite"@[0] == 'x',
        "x-re-overwrite"@[5] == 'o',
        "x-re-sha256"@[5] == 's',
        "content-length"@[0] == 'c',
{
    reveal_strlit("x-re-path");
    reveal_strlit("x-re-directory");
    reveal_strlit("x-re-offset");
    reveal_strlit("x-re-hash");
    reveal_strlit("x-re-overwrite");
    reveal_strlit("x-re-sha256");
    reveal_strlit("content-length");
}

/// A download sends the file that the request names, from the byte that it names on or
/// from the first, and tells its hash where that is asked for.
pub proof fn lemma_download_is_as_asked(
    windows: bool,
    headers: Map<Seq<char>, Seq<char>>,
    current: Option<Seq<char>>,
    offset: u64,
)
    requires
        header_of(headers, "x-re-offset"@) is None && offset == 0 || header_of(
            headers,
            "x-re-offset"@,
        ) == Some(dec(offset as nat)),
        header_of(headers, "x-re-hash"@) is None || header_of(headers, "x-re-hash"@) == Some("true"@)
            || header_of(headers, "x-re-hash"@) == Some("false"@),
        header_of(headers, "x-re-path"@) is Some,
    ensures
        ({
            let p = header_of(headers, "x-re-path"@)->Some_0;
            let r = planned_download(windows, headers, current);
            &&& r matches Ok(plan)
            &&& plan.offset == offset
            &&& plan.want_hash <==> header_of(headers, "x-re-hash"@) == Some("true"@)
            &&& crate::paths::is_rooted(windows, p) ==> plan.path == p
            &&& !crate::paths::is_rooted(windows, p) ==> {
                &&& header_of(headers, "x-re-directory"@) matches Some(d) ==> plan.path == join_path(
                    windows,
                    d,
                    p,
                )
                &&& header_of(headers, "x-re-directory"@) is None && current is Some ==> plan.path
                    == join_path(windows, current->Some_0, p)
                &&& header_of(headers, "x-re-directory"@) is None && current is None ==> plan.path
                    == join_path(windows, "."@, p)
            }
        }),
{
    lemma_number_header_is_read(headers, "x-re-offset"@, offset);
    lemma_flags_are_read();
}

proof fn lemma_flags_are_read()
    ensures
        lower("true"@) == "true"@,
        lower("false"@) == "false"@,
        "true"@ != "false"@,
        "true"@ != "1"@,
        "false"@ != "1"@,
        "false"@ != "yes"@,
        "false"@ != "0"@,
        "true"@ != "0"@,
        "true"@ != "no"@,
{
    reveal_strlit("true");
    reveal_strlit("false");
    reveal_strlit("1");
    reveal_strlit("0");
    reveal_strlit("yes");
    reveal_strlit("no");
    assert(lower("true"@) =~= "true"@);
    assert(lower("false"@) =~= "false"@);
}

/// A request without a path is refused, whatever else it says.
pub proof fn lemma_path_is_needed(
    windows: bool,
    headers: Map<Seq<char>, Seq<char>>,
    current: Option<Seq<char>>,
)
    ensures
        header_of(headers, "x-re-path"@) is None <==> request_path(windows, headers, current) is Err,
        header_of(headers, "x-re-path"@) is None ==> planned_download(windows, headers, current)
            is Err && planned_upload(windows, headers, current) is Dropped,
{
}

/// An upload writes to the path of the request as many bytes as it states; it replaces a
/// file only where it says so, and is held to the hash that it announces. Without a length
/// it is refused.
pub proof fn lemma_upload_is_as_asked(
    windows: bool,
    headers: Map<Seq<char>, Seq<char>>,
    current: Option<Seq<char>>,
    length: u64,
)
    requires
        header_of(headers, "x-re-path"@) is Some,
        header_of(headers, "x-re-overwrite"@) is None || header_of(headers, "x-re-overwrite"@)
            == Some("true"@) || header_of(headers, "x-re-overwrite"@) == Some("false"@),
    ensures
        header_of(headers, "content-length"@) is None ==> (planned_upload(
            windows,
            headers,
            current,
        ) matches UploadStartView::Refused(r) && r.status == 411),
        header_of(headers, "content-length"@) == Some(dec(length as nat)) ==> {
            &&& planned_upload(windows, headers, current) matches UploadStartView::Planned(plan)
            &&& request_path(windows, headers, current) == Ok::<Seq<char>, Seq<char>>(plan.path)
            &&& plan.content_length == length
            &&& plan.overwrite <==> header_of(headers, "x-re-overwrite"@) == Some("true"@)
            &&& plan.expected_sha == header_of(headers, "x-re-sha256"@)
        },
{
    lemma_number_is_read(length);
    lemma_flags_are_read();
}

// ---------------------------------------------------------------------------
// What answers them
// ---------------------------------------------------------------------------
proof fn lemma_reply_fields_differ()
    ensures
        "type"@.len() == 4,
        "message"@.len() == 7,
        "op"@.len() == 2,
        "path"@.len() == 4,
        "bytes"@.len() == 5,
        "sha256"@.len() == 6,
        "file"@.len() == 4,
        "type"@[0] == 't',
        "path"@[0] == 'p',
        "file"@[0] == 'f',
{
    reveal_strlit("type");
    reveal_strlit("message");
    reveal_strlit("op");
    reveal_strlit("path");
    reveal_strlit("bytes");
    reveal_strlit("sha256");
    reveal_strlit("file");
}

/// A refusal has its status and says why.
pub proof fn lemma_refusal_says_why(status: u16, message: Seq<char>)
    ensures
        refusal(status, message).status == status,
        text_at(refusal(status, message).body, "message"@) == Some(message),
        text_at(refusal(status, message).body, "type"@) == Some("re.file.v1.error"@),
{
    lemma_reply_fields_differ();
}

/// Only a file is sent, and only from a byte on that it has or ends before.
pub proof fn lemma_downloads_that_are_refused(plan: DownloadView, is_file: bool, len: u64)
    ensures
        download_refusal(plan, is_file, len) is None <==> is_file && plan.offset <= len,
        !is_file ==> download_refusal(plan, is_file, len)->Some_0.status == 400,
        is_file && plan.offset > len ==> download_refusal(plan, is_file, len)->Some_0.status == 416,
{
}

/// What goes before the bytes tells how many come, from where on, how long the file is,
/// which one it is, when it changed, and its hash where that was asked for.
pub proof fn lemma_download_is_told(
    plan: DownloadView,
    len: u64,
    stamp: FileStampView,
    hash: Option<Seq<char>>,
)
    requires
        plan.offset <= len,
    ensures
        ({
            let head = download_head(plan, len, stamp, hash);
            &&& head.contains(("Content-Type"@, "application/octet-stream"@))
            &&& head.contains(("Content-Length"@, dec((len - plan.offset) as nat)))
            &&& head.contains(("X-RE-Protocol"@, "re.file.v1"@))
            &&& head.contains(("X-RE-Op"@, "download"@))
            &&& head.contains(("X-RE-Path"@, plan.path))
            &&& head.contains(("X-RE-Offset"@, dec(plan.offset as nat)))
            &&& head.contains(("X-RE-File-Size"@, dec(len as nat)))
            &&& head.contains(("X-RE-Canonical-Path"@, stamp.canonical_path))
            &&& head.contains(("X-RE-File-Key"@, stamp.file_key))
            &&& stamp.mtime_ms matches Some(t) ==> head.contains(("X-RE-Mtime-Ms"@, dec(t as nat)))
            &&& hash matches Some(h) ==> head.contains(("X-RE-Sha256"@, h))
            &&& head.len() == 9 + (if stamp.mtime_ms is Some {
                1int
            } else {
                0
            }) + (if hash is Some {
                1int
            } else {
                0
            })
        }),
{
    let head = download_head(plan, len, stamp, hash);
    assert(head[0] == ("Content-Type"@, "application/octet-stream"@));
    assert(head[1] == ("Content-Length"@, dec((len - plan.offset) as nat)));
    assert(head[2] == ("X-RE-Protocol"@, "re.file.v1"@));
    assert(head[3] == ("X-RE-Op"@, "download"@));
    assert(head[4] == ("X-RE-Path"@, plan.path));
    assert(head[5] == ("X-RE-Offset"@, dec(plan.offset as nat)));
    assert(head[6] == ("X-RE-File-Size"@, dec(len as nat)));
    assert(head[7] == ("X-RE-Canonical-Path"@, stamp.canonical_path));
    assert(head[8] == ("X-RE-File-Key"@, stamp.file_key));
    if let Some(t) = stamp.mtime_ms {
        assert(head[9] == ("X-RE-Mtime-Ms"@, dec(t as nat)));
    }
    if let Some(h) = hash {
        assert(head[head.len() - 1] == ("X-RE-Sha256"@, h));
    }
}

proof fn lemma_header_lines_are(headers: Seq<(Seq<char>, Seq<char>)>)
    requires
        are_headers(headers),
    ensures
        header_lines(headers) + "\r\n"@ == join(
            Seq::new(headers.len(), |i: int| header_line(headers[i])) + seq![""@, ""@],
            "\r\n"@,
        ),
    decreases headers.len(),
{
    let sep = "\r\n"@;
    reveal_strlit("");
    let rows = Seq::new(headers.len(), |i: int| header_line(headers[i]));
    lemma_header_lines_start(headers);
    let all = rows + seq![""@, ""@];
    let some = rows + seq![""@];
    assert(all.drop_last() =~= some);
    assert(join(all, sep) =~= join(some, sep) + sep);
}

proof fn lemma_header_lines_start(headers: Seq<(Seq<char>, Seq<char>)>)
    requires
        are_headers(headers),
    ensures
        header_lines(headers) == join(
            Seq::new(headers.len(), |i: int| header_line(headers[i])) + seq![""@],
            "\r\n"@,
        ),
    decreases headers.len(),
{
    let sep = "\r\n"@;
    reveal_strlit("");
    let rows = Seq::new(headers.len(), |i: int| header_line(headers[i]));
    let some = rows + seq![""@];
    if headers.len() == 0 {
        assert(some =~= seq![""@]);
        reveal_with_fuel(join, 3);
        assert(join(some, sep) =~= seq![]);
    } else {
        let before = headers.drop_last();
        let h = headers.last();
        assert forall|i: int| 0 <= i < before.len() implies is_header(#[trigger] before[i]) by {
            assert(before[i] == headers[i]);
        }
        lemma_header_lines_start(before);
        assert(is_header(headers[headers.len() - 1]));
        crate::text::more_laws::lemma_replace_char_keeps(h.1, '\r', " "@);
        crate::text::more_laws::lemma_replace_char_keeps(h.1, '\n', " "@);
        assert(sanitized(h.1) == h.1);
        let rows_before = Seq::new(before.len(), |i: int| header_line(before[i]));
        assert(rows.drop_last() =~= rows_before);
        assert(rows.last() == header_line(h));
        assert(some.drop_last() =~= rows);
        assert(join(some, sep) =~= join(rows, sep) + sep);
        let some_before = rows_before + seq![""@];
        assert(some_before.drop_last() =~= rows_before);
        if rows_before.len() == 0 {
            assert(some_before =~= seq![""@]);
            reveal_with_fuel(join, 3);
            assert(join(rows, sep) =~= header_line(h));
            assert(join(some_before, sep) =~= seq![]);
        } else {
            assert(join(some_before, sep) =~= join(rows_before, sep) + sep);
            assert(join(rows, sep) =~= join(rows_before, sep) + sep + header_line(h));
        }
        assert(header_lines(headers) =~= header_lines(before) + header_line(h) + sep);
        assert(join(some, sep) =~= header_lines(headers));
    }
}

/// The head of a response has a line with its status, one that says that the connection
/// ends, one for each header in their order, and a blank one.
pub proof fn lemma_head_is_written(status: u16, headers: Seq<(Seq<char>, Seq<char>)>)
    requires
        are_headers(headers),
    ensures
        split_text(head_text(status, headers), "\r\n"@) == seq![
            "HTTP/1.1 "@ + dec(status as nat) + " "@ + reason_of(status),
            "Connection: close"@,
        ] + Seq::new(headers.len(), |i: int| header_line(headers[i])) + seq![""@, ""@],
{
    let sep = "\r\n"@;
    reveal_strlit("\r\n");
    reveal_strlit("");
    reveal_strlit("HTTP/1.1 ");
    reveal_strlit(" ");
    reveal_strlit("Connection: close");
    reveal_strlit("\r\nConnection: close\r\n");
    let rows = Seq::new(headers.len(), |i: int| header_line(headers[i]));
    let first = "HTTP/1.1 "@ + dec(status as nat) + " "@ + reason_of(status);
    let close = "Connection: close"@;
    let tail = rows + seq![""@, ""@];
    let parts = seq![first, close] + rows + seq![""@, ""@];
    lemma_header_lines_are(headers);
    let front = parts.drop_first();
    assert(front =~= seq![close] + tail);
    lemma_join_from_front(parts, sep);
    lemma_join_from_front(front, sep);
    assert(front.drop_first() =~= tail);
    assert("\r\nConnection: close\r\n"@ =~= sep + close + sep);
    assert(head_text(status, headers) =~= join(parts, sep));
    lemma_reasons_are_plain(status);
    lemma_dec_is_digits(status as nat);
    assert forall|i: int| 0 <= i < first.len() implies first[i] != '\r' by {
        let k = 9 + dec(status as nat).len();
        if 9 <= i < k {
            assert(first[i] == dec(status as nat)[i - 9]);
        } else if i > k {
            assert(first[i] == reason_of(status)[i - k - 1]);
        }
    }
    assert forall|i: int| 0 <= i < parts.len() implies !(#[trigger] parts[i]).contains('\r') by {
        if 2 <= i < 2 + headers.len() {
            assert(parts[i] == header_line(headers[i - 2]));
            lemma_header_is_cut(headers[i - 2]);
        }
    }
    lemma_lines_of_head(parts);
}

proof fn lemma_reasons_are_plain(status: u16)
    ensures
        forall|i: int| 0 <= i < reason_of(status).len() ==> #[trigger] reason_of(status)[i] != '\r',
{
    reveal_strlit("OK");
    reveal_strlit("Bad Request");
    reveal_strlit("Not Found");
    reveal_strlit("Method Not Allowed");
    reveal_strlit("Conflict");
    reveal_strlit("Length Required");
    reveal_strlit("Range Not Satisfiable");
    reveal_strlit("Error");
}

/// An upload finds a place where nothing stands or may be replaced, in a directory that
/// is there.
pub proof fn lemma_uploads_that_are_refused(
    windows: bool,
    plan: UploadView,
    exists: bool,
    parent_exists: bool,
)
    ensures
        upload_refusal(windows, plan, exists, parent_exists) is None <==> ((exists ==> plan.overwrite)
            && (parent_of(windows, plan.path) is Some) && parent_exists),
        exists && !plan.overwrite ==> upload_refusal(
            windows,
            plan,
            exists,
            parent_exists,
        )->Some_0.status == 409,
        !(exists && !plan.overwrite) && parent_of(windows, plan.path) is None ==> upload_refusal(
            windows,
            plan,
            exists,
            parent_exists,
        )->Some_0.status == 400,
        !(exists && !plan.overwrite) && parent_of(windows, plan.path) is Some && !parent_exists
            ==> upload_refusal(windows, plan, exists, parent_exists)->Some_0.status == 404,
{
}

/// An upload is written beside its target until it is whole, under a name that is not
/// the target's.
pub proof fn lemma_upload_is_written_beside(
    directory: Seq<char>,
    name: Seq<char>,
    process: u32,
    now: u128,
)
    requires
        directory.len() > 0,
        directory.last() != '/',
        directory.last() != '.',
        name.len() > 0,
        !name.contains('/'),
        name != "."@,
        name != ".."@,
    ensures
        ({
            let target = join_path(false, directory, name);
            let temp = temp_path(false, target, process, now);
            &&& parent_of(false, temp) == parent_of(false, target)
            &&& file_name_of(false, temp) is Some
            &&& file_name_of(false, temp) != file_name_of(false, target)
            &&& temp != target
        }),
{
    lemma_file_is_in_its_directory(directory, name);
    reveal_strlit(".");
    reveal_strlit("..");
    reveal_strlit("-");
    reveal_strlit(".tmp");
    reveal_strlit(".re-upload-");
    let p = dec(process as nat);
    let t = dec(now as nat);
    lemma_dec_is_digits(process as nat);
    lemma_dec_is_digits(now as nat);
    let file = "."@ + name + ".re-upload-"@ + p + "-"@ + t + ".tmp"@;
    assert(file.len() > name.len() + 10);
    assert forall|i: int| 0 <= i < file.len() implies file[i] != '/' by {
        let a = 1 + name.len();
        let b = a + 11;
        let c = b + p.len();
        let d = c + 1 + t.len();
        if 1 <= i < a {
            assert(name.contains(name[i - 1]));
        } else if b <= i < c {
            assert(file[i] == p[i - b]);
            assert(is_digit(p[i - b]));
        } else if c < i < d {
            assert(file[i] == t[i - c - 1]);
            assert(is_digit(t[i - c - 1]));
        }
    }
    lemma_file_is_in_its_directory(directory, file);
}

/// Of an upload as many bytes are asked for as are left, a mebibyte at a time at most, and
/// none exactly where it is whole.
pub proof fn lemma_bytes_that_are_wanted(body: UploadBodyView)
    requires
        body.bytes.len() <= body.content_length,
    ensures
        ({
            let left = body.content_length - body.bytes.len();
            &&& left <= 1_048_576 ==> wanted_bytes(body) == left
            &&& left > 1_048_576 ==> wanted_bytes(body) == 1_048_576
        }),
{
}

/// Bytes that are not those announced are refused, with both hashes; an upload that
/// announces none is never refused for its bytes.
pub proof fn lemma_wrong_bytes_are_refused(plan: UploadView, actual: Seq<char>)
    ensures
        hash_refusal(plan, actual) is Some <==> plan.expected_sha is Some
            && plan.expected_sha->Some_0 != actual,
        hash_refusal(plan, actual) matches Some(r) ==> r.status == 409 && text_at(
            r.body,
            "message"@,
        ) == Some("sha256 mismatch: expected "@ + plan.expected_sha->Some_0 + ", got "@ + actual),
{
    lemma_reply_fields_differ();
}

/// An upload that is done is answered with its path, the size and the hash of what was
/// written, and all that is known of the file.
pub proof fn lemma_upload_is_told(path: Seq<char>, sha: Seq<char>, stamp: FileStampView)
    ensures
        ({
            let r = done_reply(path, sha, stamp);
            &&& r.status == 200
            &&& text_at(r.body, "type"@) == Some("re.file.v1.done"@)
            &&& text_at(r.body, "op"@) == Some("upload"@)
            &&& text_at(r.body, "path"@) == Some(path)
            &&& text_at(r.body, "sha256"@) == Some(sha)
            &&& field(r.body, "file"@) == Some(stamp_json(stamp))
            &&& stamp.size matches Some(n) ==> field(r.body, "bytes"@) == Some(
                JsonView::Number(NumberView::Unsigned(n)),
            )
            &&& stamp.size is None ==> field(r.body, "bytes"@) == Some(
                JsonView::Number(NumberView::Unsigned(0)),
            )
        }),
{
    lemma_reply_fields_differ();
}

/// A file that could not be opened is told with its path and the reason.
pub proof fn lemma_unopened_file_is_told(path: Seq<char>, reason: Seq<char>)
    ensures
        unopened(path, reason).status == 404,
        text_at(unopened(path, reason).body, "message"@) == Some(
            "failed to open "@ + path + ": "@ + reason,
        ),
{
    lemma_reply_fields_differ();
}

} // verus!
