//! The part of HTTP that file transfers need: telling their requests apart from
//! others, reading a request's head, and writing the head of a response.

use crate::bytes::{
    copied, find_bytes, find_utf8_fault, lemma_find_bytes, position_of_bytes, stands_at,
    starts_bytes, starts_with_bytes, text_from_utf8, utf8_complaint, utf8_of,
};
use crate::error::Error;
use crate::protocol::{label_map, put_label};
use crate::text::number::{append_dec, dec};
use crate::text::split::{
    find_char, index_of, replace_char, split_at_text, split_text, split_words, starts, starts_with,
    trim, trimmed, with_char_replaced, words,
};
use crate::text::{append_chars, chars_of, lower, lowered, owned, string_of, views};
use vstd::prelude::*;
use vstd::slice::slice_subrange;
use vstd::utf8::{decode_utf8, encode_utf8};

verus! {

/// The largest head of a request that is read.
pub const MAX_HEADER_BYTES: usize = 65_536;

/// Whether the first bytes of a connection are those of a file transfer.
#[derive(Clone, Copy, Debug, PartialEq, Eq, Structural)]
pub enum PrefixMatch {
    Yes,
    No,
    NeedMore,
}

pub open spec fn get_start() -> Seq<u8> {
    encode_utf8("GET /re-file/v1 "@)
}

pub open spec fn put_start() -> Seq<u8> {
    encode_utf8("PUT /re-file/v1 "@)
}

pub open spec fn post_start() -> Seq<u8> {
    encode_utf8("POST /re-file/v1 "@)
}

/// Whether a line starts as the request of a file transfer does.
pub open spec fn is_transfer_line(line: Seq<u8>) -> bool {
    starts_bytes(line, get_start()) || starts_bytes(line, put_start()) || starts_bytes(
        line,
        post_start(),
    )
}

/// Whether bytes and a start agree as far as both go.
pub open spec fn agrees(b: Seq<u8>, start: Seq<u8>) -> bool {
    starts_bytes(start, b) || starts_bytes(b, start)
}

/// Whether bytes may still become the request of a file transfer.
pub open spec fn may_become(b: Seq<u8>) -> bool {
    agrees(b, get_start()) || agrees(b, put_start()) || agrees(b, post_start())
}

/// What the first bytes of a connection tell.
pub open spec fn prefix_of(b: Seq<u8>) -> PrefixMatch {
    match find_bytes(b, encode_utf8("\r\n"@), 0) {
        None => if may_become(b) {
            PrefixMatch::NeedMore
        } else {
            PrefixMatch::No
        },
        Some(end) => if is_transfer_line(b.take(end)) {
            PrefixMatch::Yes
        } else {
            PrefixMatch::No
        },
    }
}

fn agree(b: &[u8], start: &[u8]) -> (r: bool)
    ensures
        r == agrees(b@, start@),
{
    starts_with_bytes(start, b) || starts_with_bytes(b, start)
}

/// How often a connection is looked at before it counts as something else.
pub const PEEK_TRIES: usize = 20;

/// How long to wait between two looks, in milliseconds.
pub const PEEK_PAUSE_MS: u64 = 5;

/// What to do after a look at what a connection starts with.
#[derive(Clone, Copy, Debug, PartialEq, Eq, Structural)]
pub enum PeekStep {
    Transfer,
    Other,
    LookAgain,
}

/// What follows from a look, `tries` looks after the first.
pub open spec fn peek_step(tries: int, read: int, prefix: PrefixMatch) -> PeekStep {
    if read == 0 || prefix == PrefixMatch::No {
        PeekStep::Other
    } else if prefix == PrefixMatch::Yes {
        PeekStep::Transfer
    } else if tries + 1 < PEEK_TRIES {
        PeekStep::LookAgain
    } else {
        PeekStep::Other
    }
}

/// Decides after a look at a connection that showed `read` bytes with that prefix. A
/// connection that shows nothing was closed.
pub fn next_peek(tries: usize, read: usize, prefix: PrefixMatch) -> (r: PeekStep)
    ensures
        r == peek_step(tries as int, read as int, prefix),
{
    if read == 0 {
        return PeekStep::Other;
    }
    match prefix {
        PrefixMatch::Yes => PeekStep::Transfer,
        PrefixMatch::No => PeekStep::Other,
        PrefixMatch::NeedMore => if tries < PEEK_TRIES - 1 {
            PeekStep::LookAgain
        } else {
            PeekStep::Other
        },
    }
}

/// Tells whether a connection is a file transfer, from the bytes that have come
/// so far.
pub fn file_transfer_request_prefix(bytes: &[u8]) -> (r: PrefixMatch)
    ensures
        r == prefix_of(bytes@),
{
    let crlf = utf8_of("\r\n");
    let get = utf8_of("GET /re-file/v1 ");
    let put = utf8_of("PUT /re-file/v1 ");
    let post = utf8_of("POST /re-file/v1 ");
    match position_of_bytes(bytes, crlf.as_slice()) {
        None => if agree(bytes, get.as_slice()) || agree(bytes, put.as_slice()) || agree(
            bytes,
            post.as_slice(),
        ) {
            PrefixMatch::NeedMore
        } else {
            PrefixMatch::No
        },
        Some(end) => {
            let line = slice_subrange(bytes, 0, end);
            proof {
                assert(line@ =~= bytes@.take(end as int));
            }
            if starts_with_bytes(line, get.as_slice()) || starts_with_bytes(line, put.as_slice())
                || starts_with_bytes(line, post.as_slice()) {
                PrefixMatch::Yes
            } else {
                PrefixMatch::No
            }
        },
    }
}

proof fn lemma_agrees_before(b: Seq<u8>, more: Seq<u8>, start: Seq<u8>)
    requires
        agrees(b + more, start),
    ensures
        agrees(b, start),
{
    let all = b + more;
    if starts_bytes(start, all) {
        assert(start.take(b.len() as int) =~= all.take(b.len() as int));
        assert(all.take(b.len() as int) =~= b);
    } else if start.len() <= b.len() {
        assert(b.take(start.len() as int) =~= all.take(start.len() as int));
    } else {
        assert(start.take(b.len() as int) =~= all.take(start.len() as int).take(b.len() as int));
        assert(all.take(start.len() as int).take(b.len() as int) =~= b);
    }
}

proof fn lemma_line_agrees(all: Seq<u8>, end: int, start: Seq<u8>)
    requires
        0 <= end <= all.len(),
        starts_bytes(all.take(end), start),
    ensures
        agrees(all, start),
{
    assert(all.take(end).take(start.len() as int) =~= all.take(start.len() as int));
}

/// Once the first bytes tell whether a connection is a file transfer, no more
/// bytes change that.
pub proof fn lemma_prefix_is_settled(b: Seq<u8>, more: Seq<u8>)
    requires
        prefix_of(b) != PrefixMatch::NeedMore,
    ensures
        prefix_of(b + more) == prefix_of(b),
{
    let all = b + more;
    let crlf = encode_utf8("\r\n"@);
    lemma_find_bytes(b, crlf, 0);
    lemma_find_bytes(all, crlf, 0);
    match find_bytes(b, crlf, 0) {
        Some(end) => {
            assert(all.subrange(end, end + crlf.len()) =~= b.subrange(end, end + crlf.len()));
            assert(stands_at(all, crlf, end));
            let first = find_bytes(all, crlf, 0)->Some_0;
            assert(first <= end);
            if first < end {
                assert(all.subrange(first, first + crlf.len()) =~= b.subrange(
                    first,
                    first + crlf.len(),
                ));
                assert(stands_at(b, crlf, first));
            }
            assert(all.take(end) =~= b.take(end));
        },
        None => {
            if may_become(all) {
                if agrees(all, get_start()) {
                    lemma_agrees_before(b, more, get_start());
                } else if agrees(all, put_start()) {
                    lemma_agrees_before(b, more, put_start());
                } else {
                    lemma_agrees_before(b, more, post_start());
                }
            }
            assert(!may_become(all));
            if let Some(end) = find_bytes(all, crlf, 0) {
                if starts_bytes(all.take(end), get_start()) {
                    lemma_line_agrees(all, end, get_start());
                } else if starts_bytes(all.take(end), put_start()) {
                    lemma_line_agrees(all, end, put_start());
                } else if starts_bytes(all.take(end), post_start()) {
                    lemma_line_agrees(all, end, post_start());
                }
            }
        },
    }
}

/// A request whose head was read, with the part of the body that came with it.
#[derive(Debug)]
pub struct HttpRequest {
    pub method: String,
    pub path: String,
    pub headers: Vec<(String, String)>,
    pub body_start: Vec<u8>,
}

#[verifier::ext_equal]
pub struct HttpRequestView {
    pub method: Seq<char>,
    pub path: Seq<char>,
    pub headers: Map<Seq<char>, Seq<char>>,
    pub body_start: Seq<u8>,
}

impl View for HttpRequest {
    type V = HttpRequestView;

    open spec fn view(&self) -> HttpRequestView {
        HttpRequestView {
            method: self.method@,
            path: self.path@,
            headers: label_map(self.headers@),
            body_start: self.body_start@,
        }
    }
}

/// The headers in the lines of a head: their names in lower case, both sides
/// trimmed. Of two with one name the later counts.
pub open spec fn header_map(lines: Seq<Seq<char>>) -> Result<Map<Seq<char>, Seq<char>>, Seq<char>>
    decreases lines.len(),
{
    if lines.len() == 0 {
        Ok(Map::empty())
    } else {
        match header_map(lines.drop_last()) {
            Err(m) => Err(m),
            Ok(map) => {
                let line = lines.last();
                let k = find_char(line, ':');
                if line.len() == 0 {
                    Ok(map)
                } else if k >= line.len() {
                    Err("invalid HTTP header line: "@ + line)
                } else {
                    Ok(map.insert(lower(trim(line.take(k))), trim(line.skip(k + 1))))
                }
            },
        }
    }
}

/// What the text of a head says: the method, the path and the headers.
pub open spec fn parsed_head(text: Seq<char>) -> Result<
    (Seq<char>, Seq<char>, Map<Seq<char>, Seq<char>>),
    Seq<char>,
> {
    let lines = split_text(text, "\r\n"@);
    let parts = words(lines[0]);
    if parts.len() == 0 {
        Err("missing HTTP method"@)
    } else if parts.len() == 1 {
        Err("missing HTTP path"@)
    } else if parts.len() == 2 {
        Err("missing HTTP version"@)
    } else if !starts(parts[2], "HTTP/1."@) {
        Err("unsupported HTTP version: "@ + parts[2])
    } else {
        match header_map(lines.skip(1)) {
            Err(m) => Err(m),
            Ok(headers) => Ok((parts[0], parts[1], headers)),
        }
    }
}

proof fn lemma_headers_fail(lines: Seq<Seq<char>>, i: int)
    requires
        0 <= i <= lines.len(),
        header_map(lines.take(i)) is Err,
    ensures
        header_map(lines) == header_map(lines.take(i)),
    decreases lines.len() - i,
{
    if i < lines.len() {
        assert(lines.take(i + 1).drop_last() =~= lines.take(i));
        lemma_headers_fail(lines, i + 1);
    } else {
        assert(lines.take(i) =~= lines);
    }
}

fn parse_headers(lines: &[&[char]]) -> (r: Result<Vec<(String, String)>, Error>)
    ensures
        match r {
            Ok(headers) => header_map(views(lines@)) == Ok::<
                Map<Seq<char>, Seq<char>>,
                Seq<char>,
            >(label_map(headers@)),
            Err(e) => header_map(views(lines@)) == Err::<Map<Seq<char>, Seq<char>>, Seq<char>>(e@),
        },
{
    let ghost all = views(lines@);
    let mut out: Vec<(String, String)> = Vec::new();
    let mut i: usize = 0;
    proof {
        assert(all.take(0) =~= seq![]);
    }
    while i < lines.len()
        invariant
            i <= lines@.len(),
            all == views(lines@),
            header_map(all.take(i as int)) == Ok::<Map<Seq<char>, Seq<char>>, Seq<char>>(
                label_map(out@),
            ),
        decreases lines@.len() - i,
    {
        let line = lines[i];
        proof {
            assert(all[i as int] == line@);
            assert(all.take(i + 1).drop_last() =~= all.take(i as int));
        }
        let total: usize = line.len();
        if total > 0 {
            let k = index_of(line, ':');
            if k >= total {
                let mut m = owned("invalid HTTP header line: ");
                append_chars(&mut m, line);
                proof {
                    lemma_headers_fail(all, i + 1);
                }
                return Err(Error::new(m));
            }
            let left = slice_subrange(line, 0, k);
            let right = slice_subrange(line, k + 1, total);
            proof {
                assert(left@ =~= line@.take(k as int));
                assert(right@ =~= line@.skip(k + 1));
            }
            let key = lowered(trimmed(left));
            let key = string_of(key.as_slice());
            let value = string_of(trimmed(right));
            put_label(&mut out, key, value);
        }
        i = i + 1;
    }
    proof {
        assert(all.take(all.len() as int) =~= all);
    }
    Ok(out)
}

/// Reads the text of a head; `body_start` is what came behind it.
pub fn parse_head(text: &[char], body_start: Vec<u8>) -> (r: Result<HttpRequest, Error>)
    ensures
        match r {
            Ok(q) => parsed_head(text@) == Ok::<
                (Seq<char>, Seq<char>, Map<Seq<char>, Seq<char>>),
                Seq<char>,
            >((q@.method, q@.path, q@.headers)) && q@.body_start == body_start@,
            Err(e) => parsed_head(text@) == Err::<
                (Seq<char>, Seq<char>, Map<Seq<char>, Seq<char>>),
                Seq<char>,
            >(e@),
        },
{
    proof {
        reveal_strlit("\r\n");
    }
    let lines = split_at_text(text, "\r\n");
    let ghost all = views(lines@);
    let parts = split_words(lines[0]);
    let ghost found = views(parts@);
    proof {
        assert(all[0] == lines@[0]@);
        assert(found.len() == parts@.len());
    }
    if parts.len() == 0 {
        return Err(Error::of("missing HTTP method"));
    }
    if parts.len() == 1 {
        return Err(Error::of("missing HTTP path"));
    }
    if parts.len() == 2 {
        return Err(Error::of("missing HTTP version"));
    }
    proof {
        assert(found[0] == parts@[0]@ && found[1] == parts@[1]@ && found[2] == parts@[2]@);
    }
    if !starts_with(parts[2], "HTTP/1.") {
        let mut m = owned("unsupported HTTP version: ");
        append_chars(&mut m, parts[2]);
        return Err(Error::new(m));
    }
    let rest = slice_subrange(lines.as_slice(), 1, lines.len());
    proof {
        assert(views(rest@) =~= all.skip(1));
    }
    match parse_headers(rest) {
        Err(e) => Err(e),
        Ok(headers) => Ok(
            HttpRequest {
                method: string_of(parts[0]),
                path: string_of(parts[1]),
                headers,
                body_start,
            },
        ),
    }
}

/// What the bytes that have come so far make of a request: nothing yet, a
/// request, or an error. The head ends at the first blank line.
pub open spec fn read_so_far(b: Seq<u8>) -> Result<Option<HttpRequestView>, Seq<char>> {
    if b.len() > MAX_HEADER_BYTES {
        Err("request headers exceed 65536 bytes"@)
    } else {
        match find_bytes(b, encode_utf8("\r\n\r\n"@), 0) {
            None => Ok(None),
            Some(end) => match utf8_complaint(b.take(end)) {
                Some(m) => Err("request headers must be UTF-8: "@ + m),
                None => match parsed_head(decode_utf8(b.take(end))) {
                    Err(m) => Err(m),
                    Ok((method, path, headers)) => Ok(
                        Some(
                            HttpRequestView {
                                method,
                                path,
                                headers,
                                body_start: b.skip(end + encode_utf8("\r\n\r\n"@).len()),
                            },
                        ),
                    ),
                },
            },
        }
    }
}

/// Reads a request from the bytes that have come so far; `None` asks for more.
pub fn read_http_request(buf: &[u8]) -> (r: Result<Option<HttpRequest>, Error>)
    ensures
        match r {
            Ok(Some(q)) => read_so_far(buf@) == Ok::<Option<HttpRequestView>, Seq<char>>(Some(q@)),
            Ok(None) => read_so_far(buf@) == Ok::<Option<HttpRequestView>, Seq<char>>(None),
            Err(e) => read_so_far(buf@) == Err::<Option<HttpRequestView>, Seq<char>>(e@),
        },
{
    let total: usize = buf.len();
    if total > MAX_HEADER_BYTES {
        return Err(Error::of("request headers exceed 65536 bytes"));
    }
    let blank = utf8_of("\r\n\r\n");
    let end = match position_of_bytes(buf, blank.as_slice()) {
        None => {
            return Ok(None);
        },
        Some(end) => end,
    };
    let head = slice_subrange(buf, 0, end);
    proof {
        assert(head@ =~= buf@.take(end as int));
    }
    if let Some(fault) = find_utf8_fault(head) {
        let mut m = owned("request headers must be UTF-8: ");
        m.append(fault.as_str());
        return Err(Error::new(m));
    }
    let body = slice_subrange(buf, end + blank.len(), total);
    proof {
        assert(body@ =~= buf@.skip(end + encode_utf8("\r\n\r\n"@).len()));
    }
    match text_from_utf8(copied(head)) {
        None => Ok(None),
        Some(text) => {
            let text = chars_of(text.as_str());
            match parse_head(text.as_slice(), copied(body)) {
                Ok(q) => Ok(Some(q)),
                Err(e) => Err(e),
            }
        },
    }
}

/// A header's value on one line: line breaks become blanks.
pub open spec fn sanitized(value: Seq<char>) -> Seq<char> {
    replace_char(replace_char(value, '\r', " "@), '\n', " "@)
}

pub fn sanitize_header_value(value: &str) -> (r: String)
    ensures
        r@ == sanitized(value@),
{
    let all = chars_of(value);
    let once = with_char_replaced(all.as_slice(), '\r', " ");
    let once = chars_of(once.as_str());
    with_char_replaced(once.as_slice(), '\n', " ")
}

proof fn lemma_replaced(s: Seq<char>, c: char, by: Seq<char>)
    requires
        by.len() == 1,
    ensures
        replace_char(s, c, by).len() == s.len(),
        forall|i: int|
            0 <= i < s.len() ==> #[trigger] replace_char(s, c, by)[i] == (if s[i] == c {
                by[0]
            } else {
                s[i]
            }),
    decreases s.len(),
{
    if s.len() > 0 {
        lemma_replaced(s.drop_last(), c, by);
    }
}

/// A header's value keeps its length, and nothing in it breaks a line; every
/// other character stays where it was.
pub proof fn lemma_sanitized_is_one_line(value: Seq<char>)
    ensures
        sanitized(value).len() == value.len(),
        forall|i: int|
            0 <= i < value.len() ==> #[trigger] sanitized(value)[i] == (if value[i] == '\r'
                || value[i] == '\n' {
                ' '
            } else {
                value[i]
            }),
{
    reveal_strlit(" ");
    lemma_replaced(value, '\r', " "@);
    lemma_replaced(replace_char(value, '\r', " "@), '\n', " "@);
}

pub open spec fn reason_of(status: u16) -> Seq<char> {
    if status == 200 {
        "OK"@
    } else if status == 400 {
        "Bad Request"@
    } else if status == 404 {
        "Not Found"@
    } else if status == 405 {
        "Method Not Allowed"@
    } else if status == 409 {
        "Conflict"@
    } else if status == 411 {
        "Length Required"@
    } else if status == 416 {
        "Range Not Satisfiable"@
    } else {
        "Error"@
    }
}

pub fn reason_phrase(status: u16) -> (r: &'static str)
    ensures
        r@ == reason_of(status),
{
    match status {
        200 => "OK",
        400 => "Bad Request",
        404 => "Not Found",
        405 => "Method Not Allowed",
        409 => "Conflict",
        411 => "Length Required",
        416 => "Range Not Satisfiable",
        _ => "Error",
    }
}

/// The pairs of a list of headers, in their order.
pub open spec fn header_views(headers: Seq<(String, String)>) -> Seq<(Seq<char>, Seq<char>)> {
    Seq::new(headers.len(), |i: int| (headers[i].0@, headers[i].1@))
}

pub open spec fn header_lines(headers: Seq<(Seq<char>, Seq<char>)>) -> Seq<char>
    decreases headers.len(),
{
    if headers.len() == 0 {
        seq![]
    } else {
        header_lines(headers.drop_last()) + (headers.last().0 + ": "@ + sanitized(headers.last().1)
            + "\r\n"@)
    }
}

/// The head of a response, with the blank line that ends it.
pub open spec fn head_text(status: u16, headers: Seq<(Seq<char>, Seq<char>)>) -> Seq<char> {
    "HTTP/1.1 "@ + dec(status as nat) + " "@ + reason_of(status) + "\r\nConnection: close\r\n"@
        + header_lines(headers) + "\r\n"@
}

pub fn response_head(status: u16, headers: &[(String, String)]) -> (r: String)
    ensures
        r@ == head_text(status, header_views(headers@)),
{
    let mut out = owned("HTTP/1.1 ");
    append_dec(&mut out, status as u64);
    out.append(" ");
    out.append(reason_phrase(status));
    out.append("\r\nConnection: close\r\n");
    let ghost start = out@;
    let ghost all = header_views(headers@);
    let mut i: usize = 0;
    proof {
        assert(all.take(0) =~= seq![]);
        assert(start + header_lines(all.take(0)) =~= start);
    }
    while i < headers.len()
        invariant
            i <= headers@.len(),
            all == header_views(headers@),
            out@ == start + header_lines(all.take(i as int)),
        decreases headers@.len() - i,
    {
        let value = sanitize_header_value(headers[i].1.as_str());
        let mut line = headers[i].0.clone();
        line.append(": ");
        line.append(value.as_str());
        line.append("\r\n");
        out.append(line.as_str());
        proof {
            assert(all[i as int] == (headers@[i as int].0@, headers@[i as int].1@));
            assert(all.take(i + 1).drop_last() =~= all.take(i as int));
            assert(start + header_lines(all.take(i as int)) + line@ =~= start + (header_lines(
                all.take(i as int),
            ) + line@));
        }
        i = i + 1;
    }
    proof {
        assert(all.take(all.len() as int) =~= all);
    }
    out.append("\r\n");
    out
}

/// However a request is cut into pieces on its way, the same head is read: what
/// comes behind a head that was read is more of the body.
pub proof fn lemma_more_is_body(b: Seq<u8>, more: Seq<u8>)
    requires
        b.len() + more.len() <= MAX_HEADER_BYTES,
        read_so_far(b) is Ok,
        read_so_far(b)->Ok_0 is Some,
    ensures
        ({
            let q = read_so_far(b)->Ok_0->Some_0;
            read_so_far(b + more) == Ok::<Option<HttpRequestView>, Seq<char>>(
                Some(HttpRequestView { body_start: q.body_start + more, ..q }),
            )
        }),
{
    let all = b + more;
    let blank = encode_utf8("\r\n\r\n"@);
    lemma_find_bytes(b, blank, 0);
    lemma_find_bytes(all, blank, 0);
    let end = find_bytes(b, blank, 0)->Some_0;
    assert(all.subrange(end, end + blank.len()) =~= b.subrange(end, end + blank.len()));
    assert(stands_at(all, blank, end));
    let first = find_bytes(all, blank, 0)->Some_0;
    assert(first <= end);
    if first < end {
        assert(all.subrange(first, first + blank.len()) =~= b.subrange(first, first + blank.len()));
        assert(stands_at(b, blank, first));
    }
    assert(all.take(end) =~= b.take(end));
    assert(all.skip(end + blank.len()) =~= b.skip(end + blank.len()) + more);
}

} // verus!
