//! File transfers: which file a request means, what it is answered, and how an
//! upload is taken in.
//!
//! Opening, reading and writing files is up to the caller, who also writes the
//! answers to the connection.

pub mod http;
pub mod laws;

use crate::caller::{transfer_headers, FileTransferView};
use crate::error::Error;
use crate::file_transfer::http::{header_views, HttpRequest, HttpRequestView};
use crate::hash::{hash_code, taken_in, Hasher};
use crate::json::{put, Json, JsonView, NumberView};
use crate::paths::{
    file_name, file_name_of, is_absolute, is_rooted, join, join_path, parent, parent_of,
};
use crate::protocol::{find_label, label_map, opt_text, str_text};
use crate::text::number::{append_dec, append_dec_wide, dec, decimal, parse_u64, parse_unsigned};
use crate::text::split::is_text;
use crate::text::{chars_of, lower, lowered, owned, same_text};
use crate::tools::fs::stamp::{age_fits, stamp_json, stamp_value, FileStamp, FileStampView};
use vstd::prelude::*;

verus! {

/// How much of a file is read at a time.
pub const CHUNK_SIZE: usize = 1_048_576;

/// An answer that is sent in place of a file.
#[derive(Debug)]
pub struct HttpReply {
    pub status: u16,
    pub body: Json,
}

#[verifier::ext_equal]
pub struct HttpReplyView {
    pub status: u16,
    pub body: JsonView,
}

impl View for HttpReply {
    type V = HttpReplyView;

    open spec fn view(&self) -> HttpReplyView {
        HttpReplyView { status: self.status, body: self.body@ }
    }
}

/// A refusal with its reason.
pub open spec fn refusal(status: u16, message: Seq<char>) -> HttpReplyView {
    HttpReplyView {
        status,
        body: JsonView::Object(
            Map::empty().insert("type"@, JsonView::Text("re.file.v1.error"@)).insert(
                "message"@,
                JsonView::Text(message),
            ),
        ),
    }
}

pub fn refuse(status: u16, message: String) -> (r: HttpReply)
    ensures
        r@ == refusal(status, message@),
{
    let mut e: Vec<(String, Json)> = Vec::new();
    put(&mut e, "type", Json::text("re.file.v1.error"));
    put(&mut e, "message", Json::Text(message));
    HttpReply { status, body: Json::Object(e) }
}

/// The headers of an answer whose body is JSON of `len` bytes.
pub fn json_headers(len: u64) -> (r: Vec<(String, String)>)
    ensures
        header_views(r@) == seq![
            ("Content-Type"@, "application/json"@),
            ("Content-Length"@, dec(len as nat)),
        ],
{
    let mut out: Vec<(String, String)> = Vec::new();
    add_header(&mut out, "Content-Type", owned("application/json"));
    add_header(&mut out, "Content-Length", decimal(len));
    out
}

fn add_header(out: &mut Vec<(String, String)>, name: &str, value: String)
    ensures
        header_views(final(out)@) == header_views(old(out)@).push((name@, value@)),
{
    let ghost before = out@;
    out.push((owned(name), value));
    proof {
        assert(header_views(out@) =~= header_views(before).push((name@, value@)));
    }
}

/// What a request asks for.
#[derive(Debug)]
pub enum TransferKind {
    Download,
    Upload,
    Refused(HttpReply),
}

pub enum TransferKindView {
    Download,
    Upload,
    Refused(HttpReplyView),
}

impl View for TransferKind {
    type V = TransferKindView;

    open spec fn view(&self) -> TransferKindView {
        match self {
            TransferKind::Download => TransferKindView::Download,
            TransferKind::Upload => TransferKindView::Upload,
            TransferKind::Refused(reply) => TransferKindView::Refused(reply@),
        }
    }
}

pub open spec fn kind_of_transfer(q: HttpRequestView) -> TransferKindView {
    if q.path != "/re-file/v1"@ {
        TransferKindView::Refused(refusal(404, "unknown file transfer path"@))
    } else if q.method == "GET"@ {
        TransferKindView::Download
    } else if q.method == "PUT"@ || q.method == "POST"@ {
        TransferKindView::Upload
    } else {
        TransferKindView::Refused(refusal(405, "use GET to download or PUT to upload"@))
    }
}

/// Tells what a request asks for.
pub fn transfer_kind(q: &HttpRequest) -> (r: TransferKind)
    ensures
        r@ == kind_of_transfer(q@),
{
    let path = q.path.as_str();
    let method = q.method.as_str();
    if !same_text(path, "/re-file/v1") {
        TransferKind::Refused(refuse(404, owned("unknown file transfer path")))
    } else if same_text(method, "GET") {
        TransferKind::Download
    } else if same_text(method, "PUT") || same_text(method, "POST") {
        TransferKind::Upload
    } else {
        TransferKind::Refused(refuse(405, owned("use GET to download or PUT to upload")))
    }
}

/// What stands under a header's name.
pub open spec fn header_of(headers: Map<Seq<char>, Seq<char>>, name: Seq<char>) -> Option<
    Seq<char>,
> {
    if headers.dom().contains(name) {
        Some(headers[name])
    } else {
        None
    }
}

/// The file that a request means: below the directory it names, or below the
/// current one.
pub open spec fn request_path(
    windows: bool,
    headers: Map<Seq<char>, Seq<char>>,
    current: Option<Seq<char>>,
) -> Result<Seq<char>, Seq<char>> {
    match header_of(headers, "x-re-path"@) {
        None => Err("X-RE-Path header is required"@),
        Some(p) => Ok(
            if is_rooted(windows, p) {
                p
            } else {
                join_path(
                    windows,
                    match header_of(headers, "x-re-directory"@) {
                        Some(d) => d,
                        None => match current {
                            Some(c) => c,
                            None => "."@,
                        },
                    },
                    p,
                )
            },
        ),
    }
}

fn resolve_request_path(windows: bool, q: &HttpRequest, current: Option<&str>) -> (r: Result<String, Error>)
    ensures
        match r {
            Ok(p) => request_path(windows, q@.headers, str_text(current)) == Ok::<Seq<char>, Seq<char>>(
                p@,
            ),
            Err(e) => request_path(windows, q@.headers, str_text(current)) == Err::<
                Seq<char>,
                Seq<char>,
            >(e@),
        },
{
    match find_label(&q.headers, "x-re-path") {
        None => Err(Error::of("X-RE-Path header is required")),
        Some(p) => if is_absolute(windows, p) {
            Ok(owned(p))
        } else {
            match find_label(&q.headers, "x-re-directory") {
                Some(d) => Ok(join(windows, d, p)),
                None => match current {
                    Some(c) => Ok(join(windows, c, p)),
                    None => Ok(join(windows, ".", p)),
                },
            }
        },
    }
}

/// A header that holds a number.
pub open spec fn number_header(headers: Map<Seq<char>, Seq<char>>, name: Seq<char>) -> Result<
    Option<u64>,
    Seq<char>,
> {
    match header_of(headers, name) {
        None => Ok(None),
        Some(v) => match parse_unsigned(v, u64::MAX as nat) {
            Some(n) => Ok(Some(n as u64)),
            None => Err(name + " must be an unsigned integer"@),
        },
    }
}

fn parse_u64_header(headers: &Vec<(String, String)>, name: &str) -> (r: Result<Option<u64>, Error>)
    ensures
        match r {
            Ok(v) => number_header(label_map(headers@), name@) == Ok::<Option<u64>, Seq<char>>(v),
            Err(e) => number_header(label_map(headers@), name@) == Err::<Option<u64>, Seq<char>>(
                e@,
            ),
        },
{
    match find_label(headers, name) {
        None => Ok(None),
        Some(v) => {
            let all = chars_of(v);
            match parse_u64(all.as_slice()) {
                Some(n) => Ok(Some(n)),
                None => {
                    let mut m = owned(name);
                    m.append(" must be an unsigned integer");
                    Err(Error::new(m))
                },
            }
        },
    }
}

/// A header that holds a yes or a no.
pub open spec fn flag_header(headers: Map<Seq<char>, Seq<char>>, name: Seq<char>) -> Result<
    Option<bool>,
    Seq<char>,
> {
    match header_of(headers, name) {
        None => Ok(None),
        Some(v) => {
            let l = lower(v);
            if l == "1"@ || l == "true"@ || l == "yes"@ {
                Ok(Some(true))
            } else if l == "0"@ || l == "false"@ || l == "no"@ {
                Ok(Some(false))
            } else {
                Err(name + " must be true or false"@)
            }
        },
    }
}

fn parse_bool_header(headers: &Vec<(String, String)>, name: &str) -> (r: Result<
    Option<bool>,
    Error,
>)
    ensures
        match r {
            Ok(v) => flag_header(label_map(headers@), name@) == Ok::<Option<bool>, Seq<char>>(v),
            Err(e) => flag_header(label_map(headers@), name@) == Err::<Option<bool>, Seq<char>>(
                e@,
            ),
        },
{
    match find_label(headers, name) {
        None => Ok(None),
        Some(v) => {
            let all = chars_of(v);
            let l = lowered(all.as_slice());
            let l = l.as_slice();
            if is_text(l, "1") || is_text(l, "true") || is_text(l, "yes") {
                Ok(Some(true))
            } else if is_text(l, "0") || is_text(l, "false") || is_text(l, "no") {
                Ok(Some(false))
            } else {
                let mut m = owned(name);
                m.append(" must be true or false");
                Err(Error::new(m))
            }
        },
    }
}

/// A download that may begin once its file is open.
#[derive(Debug)]
pub struct DownloadPlan {
    pub path: String,
    pub offset: u64,
    pub want_hash: bool,
}

#[verifier::ext_equal]
pub struct DownloadView {
    pub path: Seq<char>,
    pub offset: u64,
    pub want_hash: bool,
}

impl View for DownloadPlan {
    type V = DownloadView;

    open spec fn view(&self) -> DownloadView {
        DownloadView { path: self.path@, offset: self.offset, want_hash: self.want_hash }
    }
}

/// What a request to download asks for.
pub open spec fn planned_download(
    windows: bool,
    headers: Map<Seq<char>, Seq<char>>,
    current: Option<Seq<char>>,
) -> Result<DownloadView, Seq<char>> {
    match request_path(windows, headers, current) {
        Err(m) => Err(m),
        Ok(path) => match number_header(headers, "x-re-offset"@) {
            Err(m) => Err(m),
            Ok(offset) => match flag_header(headers, "x-re-hash"@) {
                Err(m) => Err(m),
                Ok(hash) => Ok(
                    DownloadView {
                        path,
                        offset: match offset {
                            Some(n) => n,
                            None => 0,
                        },
                        want_hash: hash == Some(true),
                    },
                ),
            },
        },
    }
}

pub fn plan_download(windows: bool, q: &HttpRequest, current: Option<&str>) -> (r: Result<DownloadPlan, Error>)
    ensures
        match r {
            Ok(p) => planned_download(windows, q@.headers, str_text(current)) == Ok::<
                DownloadView,
                Seq<char>,
            >(p@),
            Err(e) => planned_download(windows, q@.headers, str_text(current)) == Err::<
                DownloadView,
                Seq<char>,
            >(e@),
        },
{
    let path = match resolve_request_path(windows, q, current) {
        Ok(p) => p,
        Err(e) => {
            return Err(e);
        },
    };
    let offset: u64 = match parse_u64_header(&q.headers, "x-re-offset") {
        Ok(Some(n)) => n,
        Ok(None) => 0,
        Err(e) => {
            return Err(e);
        },
    };
    let want_hash = match parse_bool_header(&q.headers, "x-re-hash") {
        Ok(Some(b)) => b,
        Ok(None) => false,
        Err(e) => {
            return Err(e);
        },
    };
    Ok(DownloadPlan { path, offset, want_hash })
}

/// The answer where the file could not be opened.
pub open spec fn unopened(path: Seq<char>, reason: Seq<char>) -> HttpReplyView {
    refusal(404, "failed to open "@ + path + ": "@ + reason)
}

pub fn refuse_unopened(path: &str, reason: &str) -> (r: HttpReply)
    ensures
        r@ == unopened(path@, reason@),
{
    let mut m = owned("failed to open ");
    m.append(path);
    m.append(": ");
    m.append(reason);
    refuse(404, m)
}

/// Why an open file is not sent.
pub open spec fn download_refusal(plan: DownloadView, is_file: bool, len: u64) -> Option<
    HttpReplyView,
> {
    if !is_file {
        Some(refusal(400, "download only supports files: "@ + plan.path))
    } else if plan.offset > len {
        Some(
            refusal(
                416,
                "offset "@ + dec(plan.offset as nat) + " is out of range for this file ("@ + dec(
                    len as nat,
                ) + " bytes)"@,
            ),
        )
    } else {
        None
    }
}

pub fn check_download(plan: &DownloadPlan, is_file: bool, len: u64) -> (r: Option<HttpReply>)
    ensures
        match r {
            Some(reply) => download_refusal(plan@, is_file, len) == Some(reply@),
            None => download_refusal(plan@, is_file, len) is None,
        },
{
    if !is_file {
        let mut m = owned("download only supports files: ");
        m.append(plan.path.as_str());
        return Some(refuse(400, m));
    }
    if plan.offset > len {
        let mut m = owned("offset ");
        append_dec(&mut m, plan.offset);
        m.append(" is out of range for this file (");
        append_dec(&mut m, len);
        m.append(" bytes)");
        return Some(refuse(416, m));
    }
    None
}

/// The headers that go before the bytes of a file.
pub open spec fn download_head(
    plan: DownloadView,
    len: u64,
    stamp: FileStampView,
    hash: Option<Seq<char>>,
) -> Seq<(Seq<char>, Seq<char>)> {
    let base = seq![
        ("Content-Type"@, "application/octet-stream"@),
        ("Content-Length"@, dec((len - plan.offset) as nat)),
        ("X-RE-Protocol"@, "re.file.v1"@),
        ("X-RE-Op"@, "download"@),
        ("X-RE-Path"@, plan.path),
        ("X-RE-Offset"@, dec(plan.offset as nat)),
        ("X-RE-File-Size"@, dec(len as nat)),
        ("X-RE-Canonical-Path"@, stamp.canonical_path),
        ("X-RE-File-Key"@, stamp.file_key),
    ];
    let aged = match stamp.mtime_ms {
        Some(t) => base.push(("X-RE-Mtime-Ms"@, dec(t as nat))),
        None => base,
    };
    match hash {
        Some(h) => aged.push(("X-RE-Sha256"@, h)),
        None => aged,
    }
}

/// The headers of a download of the bytes from the offset to the end. Line
/// breaks in them are dealt with when the head is written.
pub fn download_headers(
    plan: &DownloadPlan,
    len: u64,
    stamp: &FileStamp,
    hash: &Option<String>,
) -> (r: Vec<(String, String)>)
    requires
        plan.offset <= len,
    ensures
        header_views(r@) == download_head(plan@, len, stamp@, opt_text(*hash)),
{
    let mut out: Vec<(String, String)> = Vec::new();
    add_header(&mut out, "Content-Type", owned("application/octet-stream"));
    add_header(&mut out, "Content-Length", decimal(len - plan.offset));
    add_header(&mut out, "X-RE-Protocol", owned("re.file.v1"));
    add_header(&mut out, "X-RE-Op", owned("download"));
    add_header(&mut out, "X-RE-Path", plan.path.clone());
    add_header(&mut out, "X-RE-Offset", decimal(plan.offset));
    add_header(&mut out, "X-RE-File-Size", decimal(len));
    add_header(&mut out, "X-RE-Canonical-Path", stamp.canonical_path.clone());
    add_header(&mut out, "X-RE-File-Key", stamp.file_key.clone());
    if let Some(t) = stamp.mtime_ms {
        let mut age = String::new();
        append_dec_wide(&mut age, t);
        proof {
            assert(age@ =~= dec(t as nat));
        }
        add_header(&mut out, "X-RE-Mtime-Ms", age);
    }
    if let Some(h) = hash {
        add_header(&mut out, "X-RE-Sha256", h.clone());
    }
    out
}

/// An upload that may begin once its place is known to be free.
#[derive(Debug)]
pub struct UploadPlan {
    pub path: String,
    pub content_length: u64,
    pub overwrite: bool,
    pub expected_sha: Option<String>,
}

#[verifier::ext_equal]
pub struct UploadView {
    pub path: Seq<char>,
    pub content_length: u64,
    pub overwrite: bool,
    pub expected_sha: Option<Seq<char>>,
}

impl View for UploadPlan {
    type V = UploadView;

    open spec fn view(&self) -> UploadView {
        UploadView {
            path: self.path@,
            content_length: self.content_length,
            overwrite: self.overwrite,
            expected_sha: opt_text(self.expected_sha),
        }
    }
}

/// How an upload begins: with a plan, with a refusal that is sent, or with an
/// error that ends the connection.
#[derive(Debug)]
pub enum UploadStart {
    Planned(UploadPlan),
    Refused(HttpReply),
    Dropped(Error),
}

pub enum UploadStartView {
    Planned(UploadView),
    Refused(HttpReplyView),
    Dropped(Seq<char>),
}

impl View for UploadStart {
    type V = UploadStartView;

    open spec fn view(&self) -> UploadStartView {
        match self {
            UploadStart::Planned(plan) => UploadStartView::Planned(plan@),
            UploadStart::Refused(reply) => UploadStartView::Refused(reply@),
            UploadStart::Dropped(e) => UploadStartView::Dropped(e@),
        }
    }
}

/// The length that an upload must state.
pub open spec fn stated_length(headers: Map<Seq<char>, Seq<char>>) -> Result<u64, Seq<char>> {
    match header_of(headers, "content-length"@) {
        None => Err("Content-Length is required for upload"@),
        Some(v) => match parse_unsigned(v, u64::MAX as nat) {
            Some(n) => Ok(n as u64),
            None => Err("Content-Length must be an unsigned integer"@),
        },
    }
}

pub open spec fn planned_upload(
    windows: bool,
    headers: Map<Seq<char>, Seq<char>>,
    current: Option<Seq<char>>,
) -> UploadStartView {
    match request_path(windows, headers, current) {
        Err(m) => UploadStartView::Dropped(m),
        Ok(path) => match stated_length(headers) {
            Err(m) => UploadStartView::Refused(refusal(411, m)),
            Ok(content_length) => match flag_header(headers, "x-re-overwrite"@) {
                Err(m) => UploadStartView::Dropped(m),
                Ok(overwrite) => UploadStartView::Planned(
                    UploadView {
                        path,
                        content_length,
                        overwrite: overwrite == Some(true),
                        expected_sha: header_of(headers, "x-re-sha256"@),
                    },
                ),
            },
        },
    }
}

fn parse_content_length(headers: &Vec<(String, String)>) -> (r: Result<u64, Error>)
    ensures
        match r {
            Ok(n) => stated_length(label_map(headers@)) == Ok::<u64, Seq<char>>(n),
            Err(e) => stated_length(label_map(headers@)) == Err::<u64, Seq<char>>(e@),
        },
{
    match find_label(headers, "content-length") {
        None => Err(Error::of("Content-Length is required for upload")),
        Some(v) => {
            let all = chars_of(v);
            match parse_u64(all.as_slice()) {
                Some(n) => Ok(n),
                None => Err(Error::of("Content-Length must be an unsigned integer")),
            }
        },
    }
}

pub fn plan_upload(windows: bool, q: &HttpRequest, current: Option<&str>) -> (r: UploadStart)
    ensures
        r@ == planned_upload(windows, q@.headers, str_text(current)),
{
    let path = match resolve_request_path(windows, q, current) {
        Ok(p) => p,
        Err(e) => {
            return UploadStart::Dropped(e);
        },
    };
    let content_length: u64 = match parse_content_length(&q.headers) {
        Ok(n) => n,
        Err(e) => {
            return UploadStart::Refused(refuse(411, e.message));
        },
    };
    let overwrite = match parse_bool_header(&q.headers, "x-re-overwrite") {
        Ok(Some(b)) => b,
        Ok(None) => false,
        Err(e) => {
            return UploadStart::Dropped(e);
        },
    };
    let expected_sha = match find_label(&q.headers, "x-re-sha256") {
        Some(h) => Some(owned(h)),
        None => None,
    };
    UploadStart::Planned(UploadPlan { path, content_length, overwrite, expected_sha })
}

/// Why an upload finds no place: its target is there and may not be replaced, or
/// the directory for it is not there.
pub open spec fn upload_refusal(windows: bool, plan: UploadView, exists: bool, parent_exists: bool) -> Option<
    HttpReplyView,
> {
    if exists && !plan.overwrite {
        Some(
            refusal(
                409,
                "target already exists; pass X-RE-Overwrite: true: "@ + plan.path,
            ),
        )
    } else {
        match parent_of(windows, plan.path) {
            None => Some(refusal(400, "target path has no parent: "@ + plan.path)),
            Some(dir) => if parent_exists {
                None
            } else {
                Some(refusal(404, "parent directory does not exist: "@ + dir))
            },
        }
    }
}

pub fn check_upload(windows: bool, plan: &UploadPlan, exists: bool, parent_exists: bool) -> (r: Option<HttpReply>)
    ensures
        match r {
            Some(reply) => upload_refusal(windows, plan@, exists, parent_exists) == Some(reply@),
            None => upload_refusal(windows, plan@, exists, parent_exists) is None,
        },
{
    if exists && !plan.overwrite {
        let mut m = owned("target already exists; pass X-RE-Overwrite: true: ");
        m.append(plan.path.as_str());
        return Some(refuse(409, m));
    }
    match parent(windows, plan.path.as_str()) {
        None => {
            let mut m = owned("target path has no parent: ");
            m.append(plan.path.as_str());
            Some(refuse(400, m))
        },
        Some(dir) => if parent_exists {
            None
        } else {
            let mut m = owned("parent directory does not exist: ");
            m.append(dir.as_str());
            Some(refuse(404, m))
        },
    }
}

/// The file that an upload is written to until it is whole.
pub open spec fn temp_path(windows: bool, path: Seq<char>, process: u32, now: u128) -> Seq<char> {
    join_path(
        windows,
        match parent_of(windows, path) {
            Some(dir) => dir,
            None => "."@,
        },
        "."@ + (match file_name_of(windows, path) {
            Some(name) => name,
            None => "upload"@,
        }) + ".re-upload-"@ + dec(process as nat) + "-"@ + dec(now as nat) + ".tmp"@,
    )
}

pub fn upload_temp_path(windows: bool, path: &str, process: u32, now: u128) -> (r: String)
    ensures
        r@ == temp_path(windows, path@, process, now),
{
    let dir = match parent(windows, path) {
        Some(dir) => dir,
        None => owned("."),
    };
    let name = match file_name(windows, path) {
        Some(name) => name,
        None => owned("upload"),
    };
    let mut file = owned(".");
    file.append(name.as_str());
    file.append(".re-upload-");
    append_dec(&mut file, process as u64);
    file.append("-");
    append_dec_wide(&mut file, now);
    file.append(".tmp");
    join(windows, dir.as_str(), file.as_str())
}

/// The body of an upload as far as it has come. The bytes themselves are written down by
/// the caller as they come; their digest and their number are kept.
pub struct UploadBody {
    content_length: u64,
    received: u64,
    hasher: Hasher,
}

#[verifier::ext_equal]
pub struct UploadBodyView {
    pub content_length: u64,
    pub bytes: Seq<u8>,
}

impl View for UploadBody {
    type V = UploadBodyView;

    closed spec fn view(&self) -> UploadBodyView {
        UploadBodyView { content_length: self.content_length, bytes: taken_in(self.hasher) }
    }
}

/// How many bytes are asked for next; none where the body is whole.
pub open spec fn wanted_bytes(body: UploadBodyView) -> int {
    let left = body.content_length - body.bytes.len();
    if left < 0 {
        0
    } else if left < CHUNK_SIZE {
        left
    } else {
        CHUNK_SIZE as int
    }
}

impl UploadBody {
    #[verifier::type_invariant]
    spec fn fits(self) -> bool {
        self.received == taken_in(self.hasher).len() && self.received <= self.content_length
    }

    /// Begins with the bytes that came with the head of the request.
    pub fn begin(content_length: u64, start: &[u8]) -> (r: Result<UploadBody, Error>)
        ensures
            match r {
                Ok(body) => start@.len() <= content_length && body@ == (UploadBodyView {
                    content_length,
                    bytes: start@,
                }),
                Err(e) => start@.len() > content_length && e@
                    == "request body contains more bytes than Content-Length "@ + dec(
                    content_length as nat,
                ),
            },
    {
        if start.len() as u64 > content_length {
            let mut m = owned("request body contains more bytes than Content-Length ");
            append_dec(&mut m, content_length);
            return Err(Error::new(m));
        }
        let mut hasher = Hasher::new();
        hasher.add(start);
        proof {
            assert(taken_in(hasher) =~= start@);
        }
        Ok(UploadBody { content_length, received: start.len() as u64, hasher })
    }

    /// How many bytes to read next, at most.
    pub fn wanted(&self) -> (r: usize)
        ensures
            r == wanted_bytes(self@),
            r <= CHUNK_SIZE,
            r == 0 <==> self@.bytes.len() == self@.content_length,
    {
        proof {
            use_type_invariant(self);
        }
        let left: u64 = self.content_length - self.received;
        if left < CHUNK_SIZE as u64 {
            left as usize
        } else {
            CHUNK_SIZE
        }
    }

    /// Takes in bytes that were read, no more than were wanted. That none came
    /// means that the connection is closed.
    pub fn take(self, read: &[u8]) -> (r: Result<UploadBody, Error>)
        requires
            read@.len() <= wanted_bytes(self@),
        ensures
            match r {
                Ok(body) => read@.len() > 0 && body@ == (UploadBodyView {
                    bytes: self@.bytes + read@,
                    ..self@
                }),
                Err(e) => read@.len() == 0 && e@ == "connection closed after "@ + dec(
                    self@.bytes.len(),
                ) + " bytes; expected "@ + dec(self@.content_length as nat),
            },
    {
        proof {
            use_type_invariant(&self);
        }
        if read.len() == 0 {
            let mut m = owned("connection closed after ");
            append_dec(&mut m, self.received);
            m.append(" bytes; expected ");
            append_dec(&mut m, self.content_length);
            return Err(Error::new(m));
        }
        let content_length = self.content_length;
        let received: u64 = self.received + read.len() as u64;
        let mut hasher = self.hasher;
        hasher.add(read);
        Ok(UploadBody { content_length, received, hasher })
    }

    /// The hash code of the bytes that have come.
    pub fn hash(self) -> (r: String)
        ensures
            r@ == hash_code(self@.bytes),
    {
        self.hasher.hash_code()
    }
}

/// The answer where the bytes are not those that the request announced.
pub open spec fn hash_refusal(plan: UploadView, actual: Seq<char>) -> Option<HttpReplyView> {
    match plan.expected_sha {
        None => None,
        Some(expected) => if expected == actual {
            None
        } else {
            Some(refusal(409, "sha256 mismatch: expected "@ + expected + ", got "@ + actual))
        },
    }
}

pub fn check_upload_hash(plan: &UploadPlan, actual: &str) -> (r: Option<HttpReply>)
    ensures
        match r {
            Some(reply) => hash_refusal(plan@, actual@) == Some(reply@),
            None => hash_refusal(plan@, actual@) is None,
        },
{
    match &plan.expected_sha {
        None => None,
        Some(expected) => if same_text(expected.as_str(), actual) {
            None
        } else {
            let mut m = owned("sha256 mismatch: expected ");
            m.append(expected.as_str());
            m.append(", got ");
            m.append(actual);
            Some(refuse(409, m))
        },
    }
}

/// The answer to an upload that is done.
pub open spec fn done_reply(path: Seq<char>, sha: Seq<char>, stamp: FileStampView) -> HttpReplyView {
    HttpReplyView {
        status: 200,
        body: JsonView::Object(
            Map::empty().insert("type"@, JsonView::Text("re.file.v1.done"@)).insert(
                "op"@,
                JsonView::Text("upload"@),
            ).insert("path"@, JsonView::Text(path)).insert(
                "bytes"@,
                JsonView::Number(
                    NumberView::Unsigned(
                        match stamp.size {
                            Some(n) => n,
                            None => 0,
                        },
                    ),
                ),
            ).insert("sha256"@, JsonView::Text(sha)).insert("file"@, stamp_json(stamp)),
        ),
    }
}

pub fn upload_done(path: &str, sha: &str, stamp: &FileStamp) -> (r: HttpReply)
    requires
        age_fits(stamp@),
    ensures
        r@ == done_reply(path@, sha@, stamp@),
{
    let mut e: Vec<(String, Json)> = Vec::new();
    put(&mut e, "type", Json::text("re.file.v1.done"));
    put(&mut e, "op", Json::text("upload"));
    put(&mut e, "path", Json::text(path));
    put(
        &mut e,
        "bytes",
        Json::count(
            match stamp.size {
                Some(n) => n,
                None => 0,
            },
        ),
    );
    put(&mut e, "sha256", Json::text(sha));
    put(&mut e, "file", stamp_value(stamp));
    HttpReply { status: 200, body: Json::Object(e) }
}

/// An upload of bytes under their own hash code is never refused for its hash,
/// and under the hash code of other bytes only where both have one hash.
pub proof fn lemma_own_hash_is_accepted(plan: UploadView, announced: Seq<u8>, sent: Seq<u8>)
    requires
        plan.expected_sha == Some(hash_code(announced)),
    ensures
        announced == sent ==> hash_refusal(plan, hash_code(sent)) is None,
        hash_refusal(plan, hash_code(sent)) is None ==> hash_code(announced) == hash_code(sent),
{
}

/// Whether a request carries the headers that a caller prepared, and of those
/// that a caller prepares no others.
pub open spec fn carries(
    headers: Map<Seq<char>, Seq<char>>,
    prepared: Map<Seq<char>, JsonView>,
) -> bool {
    forall|name: Seq<char>|
        #![trigger prepared.dom().contains(name)]
        name == "X-RE-Path"@ || name == "X-RE-Directory"@ || name == "X-RE-Overwrite"@ ==> (
        if prepared.dom().contains(name) {
            headers.dom().contains(lower(name)) && prepared[name] == JsonView::Text(
                headers[lower(name)],
            )
        } else {
            !headers.dom().contains(lower(name))
        })
}

/// An executor that is asked for a transfer as the caller prepared it works on
/// the file that the request to the caller named, below its directory, and may
/// replace it just where that request said so.
pub proof fn lemma_prepared_transfer_is_understood(
    windows: bool,
    options: FileTransferView,
    directory: Option<Seq<char>>,
    headers: Map<Seq<char>, Seq<char>>,
    current: Option<Seq<char>>,
)
    requires
        carries(headers, transfer_headers(options, directory)),
    ensures
        request_path(windows, headers, current) == Ok::<Seq<char>, Seq<char>>(
            if is_rooted(windows, options.target_path) {
                options.target_path
            } else {
                join_path(
                    windows,
                    match (directory, current) {
                        (Some(d), _) => d,
                        (None, Some(c)) => c,
                        (None, None) => "."@,
                    },
                    options.target_path,
                )
            },
        ),
        flag_header(headers, "x-re-overwrite"@) == Ok::<Option<bool>, Seq<char>>(options.overwrite),
{
    let prepared = transfer_headers(options, directory);
    reveal_strlit("X-RE-Path");
    reveal_strlit("x-re-path");
    reveal_strlit("X-RE-Directory");
    reveal_strlit("x-re-directory");
    reveal_strlit("X-RE-Overwrite");
    reveal_strlit("x-re-overwrite");
    reveal_strlit("true");
    reveal_strlit("false");
    reveal_strlit("1");
    reveal_strlit("yes");
    assert(lower("X-RE-Path"@) =~= "x-re-path"@);
    assert(lower("X-RE-Directory"@) =~= "x-re-directory"@);
    assert(lower("X-RE-Overwrite"@) =~= "x-re-overwrite"@);
    assert(lower("true"@) =~= "true"@);
    assert(lower("false"@) =~= "false"@);
    assert("X-RE-Path"@.len() == 9 && "X-RE-Directory"@.len() == 14 && "X-RE-Overwrite"@.len()
        == 14);
    assert("X-RE-Directory"@[5] == 'D' && "X-RE-Overwrite"@[5] == 'O');
    assert("true"@.len() == 4 && "false"@.len() == 5 && "1"@.len() == 1 && "yes"@.len() == 3);
    assert(prepared.dom().contains("X-RE-Path"@));
    assert(prepared.dom().contains("X-RE-Directory"@) == directory is Some);
    assert(prepared.dom().contains("X-RE-Overwrite"@) == options.overwrite is Some);
}

} // verus!
