use remote_executor::caller::{ExecutorEndpoint, FileTransferMode, FileTransferOptions};
use remote_executor::file_transfer::http::{
    file_transfer_request_prefix, next_peek, read_http_request, response_head,
    sanitize_header_value, HttpRequest, PeekStep, PrefixMatch,
};
use remote_executor::file_transfer::{
    check_download, check_upload, check_upload_hash, download_headers, json_headers,
    plan_download, plan_upload, refuse_unopened, transfer_kind, upload_done, upload_temp_path,
    HttpReply, TransferKind, UploadBody, UploadPlan, UploadStart, CHUNK_SIZE,
};
use remote_executor::hash::hash_bytes;
use remote_executor::json::Json;
use remote_executor::protocol::ExecutorInfo;
use remote_executor::tools::fs::stamp::{FileKind, FileStamp};

fn stamp() -> FileStamp {
    FileStamp {
        file_key: "file-id:7".to_string(),
        canonical_path: "/real\n/source.bin".to_string(),
        kind: FileKind::File,
        size: Some(10),
        mtime_ms: Some(1234),
    }
}

fn request(head: &str) -> HttpRequest {
    read_http_request(head.as_bytes()).unwrap().unwrap()
}

fn message(reply: &HttpReply) -> &str {
    assert_eq!(reply.body.get_text("type"), Some("re.file.v1.error"));
    reply.body.get_text("message").unwrap()
}

#[test]
fn transfers_are_told_from_other_connections() {
    assert_eq!(file_transfer_request_prefix(b""), PrefixMatch::NeedMore);
    assert_eq!(file_transfer_request_prefix(b"GET /re-fi"), PrefixMatch::NeedMore);
    assert_eq!(
        file_transfer_request_prefix(b"POST /re-file/v1 HTTP/1.1"),
        PrefixMatch::NeedMore
    );
    assert_eq!(
        file_transfer_request_prefix(b"PUT /re-file/v1 HTTP/1.1\r\n"),
        PrefixMatch::Yes
    );
    assert_eq!(file_transfer_request_prefix(b"GET / HTTP/1.1\r\n"), PrefixMatch::No);
    assert_eq!(file_transfer_request_prefix(b"GET /re-file/v2"), PrefixMatch::No);
    assert_eq!(file_transfer_request_prefix(b"HEAD"), PrefixMatch::No);
    assert_eq!(
        file_transfer_request_prefix(b"HEAD / HTTP/1.1\r\nGET /re-file/v1 "),
        PrefixMatch::No
    );
}

#[test]
fn heads_are_read_to_the_blank_line() {
    assert!(read_http_request(b"GET /re-file/v1 HTTP/1.1\r\nA: b\r\n").unwrap().is_none());
    let q = request("GET  /re-file/v1  HTTP/1.1\r\nX-RE-Path:  a:b \r\nx-re-path: last\r\n\r\nbody");
    assert_eq!(q.method, "GET");
    assert_eq!(q.path, "/re-file/v1");
    assert_eq!(q.body_start, b"body".to_vec());
    let plan = plan_download(false, &q, Some("/cur")).unwrap();
    assert_eq!(plan.path, "/cur/last");
    assert_eq!(plan.offset, 0);
    assert!(!plan.want_hash);
}

#[test]
fn heads_that_are_none_are_refused() {
    let fault = |b: &[u8]| read_http_request(b).unwrap_err().to_string();
    assert_eq!(fault(b"\r\n\r\n"), "missing HTTP method");
    assert_eq!(fault(b"GET\r\n\r\n"), "missing HTTP path");
    assert_eq!(fault(b"GET /\r\n\r\n"), "missing HTTP version");
    assert_eq!(fault(b"GET / HTTP/2\r\n\r\n"), "unsupported HTTP version: HTTP/2");
    assert_eq!(
        fault(b"GET / HTTP/1.1\r\nnonsense\r\n\r\n"),
        "invalid HTTP header line: nonsense"
    );
    assert_eq!(
        fault(b"GET /\xff HTTP/1.1\r\n\r\n"),
        "request headers must be UTF-8: invalid utf-8 sequence of 1 bytes from index 5"
    );
    assert_eq!(fault(&vec![b'x'; 65_537]), "request headers exceed 65536 bytes");
    assert!(read_http_request(&vec![b'x'; 65_536]).unwrap().is_none());
}

#[test]
fn requests_ask_for_one_thing() {
    let kind = |method: &str, path: &str| {
        transfer_kind(&request(&format!("{method} {path} HTTP/1.1\r\n\r\n")))
    };
    assert!(matches!(kind("GET", "/re-file/v1"), TransferKind::Download));
    assert!(matches!(kind("PUT", "/re-file/v1"), TransferKind::Upload));
    assert!(matches!(kind("POST", "/re-file/v1"), TransferKind::Upload));
    match kind("GET", "/other") {
        TransferKind::Refused(r) => {
            assert_eq!(r.status, 404);
            assert_eq!(message(&r), "unknown file transfer path");
        }
        _ => panic!("expected a refusal"),
    }
    match kind("DELETE", "/re-file/v1") {
        TransferKind::Refused(r) => assert_eq!(r.status, 405),
        _ => panic!("expected a refusal"),
    }
}

#[test]
fn downloads_are_checked() {
    let fault = |head: &str| plan_download(false, &request(head), None).unwrap_err().to_string();
    assert_eq!(fault("GET / HTTP/1.1\r\n\r\n"), "X-RE-Path header is required");
    assert_eq!(
        fault("GET / HTTP/1.1\r\nX-RE-Path: a\r\nX-RE-Offset: -1\r\n\r\n"),
        "x-re-offset must be an unsigned integer"
    );
    assert_eq!(
        fault("GET / HTTP/1.1\r\nX-RE-Path: a\r\nX-RE-Hash: maybe\r\n\r\n"),
        "x-re-hash must be true or false"
    );
    let q = request(
        "GET / HTTP/1.1\r\nX-RE-Path: a\r\nX-RE-Directory: /d\r\nX-RE-Offset: 4\r\nX-RE-Hash: YES\r\n\r\n",
    );
    let plan = plan_download(false, &q, Some("/cur")).unwrap();
    assert_eq!(plan.path, "/d/a");
    assert!(plan.want_hash);
    assert!(check_download(&plan, true, 4).is_none());
    let late = check_download(&plan, true, 3).unwrap();
    assert_eq!(late.status, 416);
    assert_eq!(message(&late), "offset 4 is out of range for this file (3 bytes)");
    assert_eq!(check_download(&plan, false, 9).unwrap().status, 400);
    let gone = refuse_unopened("/d/a", "gone");
    assert_eq!((gone.status, message(&gone)), (404, "failed to open /d/a: gone"));
    let headers = download_headers(&plan, 10, &stamp(), &Some("sha256:0".to_string()));
    let head = response_head(200, &headers);
    assert!(head.starts_with("HTTP/1.1 200 OK\r\nConnection: close\r\nContent-Type: "));
    assert!(head.contains("\r\nContent-Length: 6\r\n"));
    assert!(head.contains("\r\nX-RE-Canonical-Path: /real /source.bin\r\n"));
    assert!(head.contains("\r\nX-RE-Mtime-Ms: 1234\r\n"));
    assert!(head.ends_with("\r\nX-RE-Sha256: sha256:0\r\n\r\n"));
}

#[test]
fn header_values_stay_on_one_line() {
    assert_eq!(sanitize_header_value("a\r\nb\nc"), "a  b c");
    let head = response_head(418, &json_headers(12));
    assert_eq!(
        head,
        "HTTP/1.1 418 Error\r\nConnection: close\r\nContent-Type: application/json\r\nContent-Length: 12\r\n\r\n"
    );
}

fn upload(head: &str) -> UploadStart {
    plan_upload(false, &request(head), Some("/cur"))
}

fn planned(head: &str) -> UploadPlan {
    match upload(head) {
        UploadStart::Planned(p) => p,
        _ => panic!("expected a plan"),
    }
}

#[test]
fn uploads_are_checked() {
    assert!(matches!(upload("PUT / HTTP/1.1\r\n\r\n"), UploadStart::Dropped(_)));
    match upload("PUT / HTTP/1.1\r\nX-RE-Path: a\r\n\r\n") {
        UploadStart::Refused(r) => {
            assert_eq!(r.status, 411);
            assert_eq!(message(&r), "Content-Length is required for upload");
        }
        _ => panic!("expected a refusal"),
    }
    match upload("PUT / HTTP/1.1\r\nX-RE-Path: a\r\nContent-Length: x\r\n\r\n") {
        UploadStart::Refused(r) => {
            assert_eq!(message(&r), "Content-Length must be an unsigned integer")
        }
        _ => panic!("expected a refusal"),
    }
    assert!(matches!(
        upload("PUT / HTTP/1.1\r\nX-RE-Path: a\r\nContent-Length: 1\r\nX-RE-Overwrite: 2\r\n\r\n"),
        UploadStart::Dropped(_)
    ));
    let p = planned("PUT / HTTP/1.1\r\nX-RE-Path: a\r\nContent-Length: 3\r\n\r\n");
    assert_eq!(p.path, "/cur/a");
    assert!(check_upload(false, &p, false, true).is_none());
    let there = check_upload(false, &p, true, true).unwrap();
    assert_eq!(there.status, 409);
    assert_eq!(
        message(&there),
        "target already exists; pass X-RE-Overwrite: true: /cur/a"
    );
    let lost = check_upload(false, &p, false, false).unwrap();
    assert_eq!((lost.status, message(&lost)), (404, "parent directory does not exist: /cur"));
    let over = planned(
        "PUT / HTTP/1.1\r\nX-RE-Path: a\r\nContent-Length: 3\r\nX-RE-Overwrite: 1\r\n\r\n",
    );
    assert!(check_upload(false, &over, true, true).is_none());
    let root = planned("PUT / HTTP/1.1\r\nX-RE-Path: /\r\nContent-Length: 3\r\n\r\n");
    assert_eq!(check_upload(false, &root, false, true).unwrap().status, 400);
}

#[test]
fn bodies_are_taken_in_until_they_are_whole() {
    let body = UploadBody::begin(5, b"ab").unwrap();
    assert_eq!(body.wanted(), 3);
    let body = body.take(b"c").unwrap();
    assert_eq!(body.wanted(), 2);
    let body = body.take(b"de").unwrap();
    assert_eq!(body.wanted(), 0);
    assert_eq!(body.hash(), hash_bytes(b"abcde"));
    assert_eq!(
        UploadBody::begin(1, b"ab").err().unwrap().to_string(),
        "request body contains more bytes than Content-Length 1"
    );
    let short = UploadBody::begin(9, b"ab").unwrap();
    assert_eq!(
        short.take(b"").err().unwrap().to_string(),
        "connection closed after 2 bytes; expected 9"
    );
    assert_eq!(UploadBody::begin(u64::MAX, b"").unwrap().wanted(), CHUNK_SIZE);
}

#[test]
fn shared_endpoint_reports_dedicated_file_transfer_url_and_transfers_files() {
    let sent = b"uploaded payload\nsecond line\n";
    let head = format!(
        "PUT /re-file/v1 HTTP/1.1\r\nX-RE-Path: /d/uploaded.bin\r\nX-RE-Sha256: {}\r\nContent-Length: {}\r\n\r\n",
        hash_bytes(sent),
        sent.len()
    );
    let p = planned(&head);
    let body = UploadBody::begin(p.content_length, sent).unwrap();
    let sha = body.hash();
    assert!(check_upload_hash(&p, &sha).is_none());
    let wrong = check_upload_hash(&p, "sha256:0").unwrap();
    assert_eq!(wrong.status, 409);
    assert!(message(&wrong).starts_with("sha256 mismatch: expected sha256:"));
    let done = upload_done(&p.path, &sha, &stamp());
    assert_eq!(done.status, 200);
    assert_eq!(done.body.get_text("type"), Some("re.file.v1.done"));
    assert_eq!(done.body.get_text("sha256"), Some(hash_bytes(sent).as_str()));
    assert_eq!(done.body.get("bytes").unwrap().as_u64(), Some(10));
    assert!(matches!(done.body.get("file"), Some(Json::Object(_))));
    assert_eq!(
        upload_temp_path(false, "/d/uploaded.bin", 12, 34),
        "/d/.uploaded.bin.re-upload-12-34.tmp"
    );
}

#[test]
fn a_request_is_the_same_however_it_is_cut() {
    let whole = b"PUT /re-file/v1 HTTP/1.1\r\nX-RE-Path: a\r\n\r\nbody and more";
    let full = read_http_request(whole).unwrap().unwrap();
    assert_eq!(full.body_start, b"body and more".to_vec());
    for cut in 0..whole.len() {
        if let Some(part) = read_http_request(&whole[..cut]).unwrap() {
            assert_eq!(part.path, full.path);
            assert_eq!(part.headers, full.headers);
            let mut body = part.body_start;
            body.extend_from_slice(&whole[cut..]);
            assert_eq!(body, full.body_start);
        }
    }
}

#[test]
fn prepared_transfers_are_understood() {
    let endpoint = ExecutorEndpoint {
        info: ExecutorInfo {
            id: "box".to_string(),
            system: None,
            device: None,
            labels: Vec::new(),
        },
        url: "ws://host:9001".to_string(),
        protocol: None,
        version: None,
        file_transfer: true,
        file_transfer_path: "/re-file/v1".to_string(),
    };
    let options = FileTransferOptions {
        mode: FileTransferMode::Upload,
        local_path: "here.bin".to_string(),
        target_path: "dir/there.bin".to_string(),
        overwrite: Some(true),
    };
    let result = endpoint.file_transfer_result(&options, Some("/repo")).unwrap();
    assert_eq!(result.metadata.get_text("url"), Some("http://host:9001/re-file/v1"));
    let method = result.metadata.get_text("method").unwrap();
    let mut head = format!("{method} /re-file/v1 HTTP/1.1\r\nContent-Length: 3\r\n");
    match result.metadata.get("headers").unwrap() {
        Json::Object(entries) => {
            for (name, value) in entries {
                match value {
                    Json::Text(value) => head.push_str(&format!("{name}: {value}\r\n")),
                    _ => panic!("header values are texts"),
                }
            }
        }
        _ => panic!("headers are an object"),
    }
    head.push_str("\r\nabc");
    let plan = planned(&head);
    assert_eq!(plan.path, "/repo/dir/there.bin");
    assert!(plan.overwrite);
    assert_eq!(plan.content_length, 3);
}

#[test]
fn connections_are_looked_at_a_few_times() {
    assert_eq!(next_peek(0, 0, PrefixMatch::NeedMore), PeekStep::Other);
    assert_eq!(next_peek(0, 3, PrefixMatch::NeedMore), PeekStep::LookAgain);
    assert_eq!(next_peek(18, 3, PrefixMatch::NeedMore), PeekStep::LookAgain);
    assert_eq!(next_peek(19, 3, PrefixMatch::NeedMore), PeekStep::Other);
    assert_eq!(next_peek(19, 20, PrefixMatch::Yes), PeekStep::Transfer);
    assert_eq!(next_peek(0, 20, PrefixMatch::No), PeekStep::Other);
}
