use remote_executor::caller::{
    call_timeout_ms_for, closed_early, connect_question, finish_forward, http_file_transfer_url,
    normalize_ws_url, refuse_line, refuse_params, timed_out, Caller, CallerStep,
    ConnectExecutorOptions, FileTransferMode, FileTransferOptions,
};
use remote_executor::error::Error;
use remote_executor::executor::Executor;
use remote_executor::json::{Json, Number};
use remote_executor::protocol::{ExecutorInfo, ExecutorRequest, ExecutorResponse};

fn info(id: &str) -> ExecutorInfo {
    ExecutorInfo { id: id.to_string(), system: None, device: None, labels: Vec::new() }
}

fn caller() -> Caller {
    Caller::new(info("local"), "127.0.0.1:9000", "1.2.3")
}

fn request(method: &str, executor: Option<&str>) -> ExecutorRequest {
    ExecutorRequest {
        id: Json::Text("r".to_string()),
        method: method.to_string(),
        params: Json::empty(),
        directory: Some("/dir".to_string()),
        executor: executor.map(|s| s.to_string()),
        tool_timeout_ms: None,
    }
}

fn connect(id: &str, url: &str) -> ConnectExecutorOptions {
    ConnectExecutorOptions {
        id: id.to_string(),
        url: url.to_string(),
        system: Some("test".to_string()),
        device: None,
        labels: Vec::new(),
    }
}

fn introduction(id: &str) -> ExecutorResponse {
    let e = Executor::local(id.to_string(), "linux", Some("box".to_string()));
    e.respond(&Json::Null, Ok(e.executor_info("9.9")))
}

fn connected(names: &[&str]) -> Caller {
    let mut c = caller();
    for name in names {
        let o = connect(name, &format!("{name}.example:1"));
        c.connect_to_executor(&o, Ok(introduction(name))).unwrap();
    }
    c
}

#[test]
fn test_caller_lists_local_executor() {
    let c = caller();
    assert!(matches!(c.handle(&request("list_executor", None)), CallerStep::ListExecutors));
    let response = c.show_list(&Json::Null, "pretty".to_string());
    assert!(response.ok);
    assert_eq!(response.executor.as_deref(), Some("caller"));
    let result = response.result.unwrap();
    let metadata = result.get("metadata").unwrap();
    assert_eq!(metadata.get_text("default"), Some("local"));
    match metadata.get("executors").unwrap() {
        Json::Array(v) => {
            assert_eq!(v.len(), 1);
            assert_eq!(v[0].get_text("id"), Some("local"));
            assert_eq!(v[0].get_text("url"), Some("ws://127.0.0.1:9000"));
        }
        _ => panic!("expected a list"),
    }
    assert_eq!(result.get("output").unwrap().get_text("text"), Some("pretty"));
    let response = c.list_response(&Json::Null);
    let result = response.result.unwrap();
    let shown = result.get("output").unwrap().get_text("text").unwrap();
    assert!(shown.starts_with("{\n  \"default\": \"local\",\n  \"executors\": [\n    {\n"), "{shown}");
}

#[test]
fn test_caller_rejects_non_canonical_names() {
    let c = caller();
    let e = Executor::local("local".to_string(), "linux", None);
    for method in ["list_executors", "connect_executor", "set_def_executor", "exec"] {
        let forwarded = match c.handle(&request(method, None)) {
            CallerStep::Forward(f) => f,
            _ => panic!("{method} should go to the executor"),
        };
        let response = e.handle(&forwarded.request).err().unwrap();
        assert!(!response.ok, "{method} should not be accepted");
        assert!(response.error.unwrap().contains("unknown method"));
    }
}

#[test]
fn test_caller_routes_to_connected_executor() {
    let mut c = connected(&["remote"]);
    c.set_default_executor("remote").unwrap();
    assert_eq!(c.default_executor(), "remote");
    match c.handle(&request("read", None)) {
        CallerStep::Forward(f) => {
            assert_eq!(f.executor, "remote");
            assert_eq!(f.url, "ws://remote.example:1");
            assert_eq!(f.request.executor, None);
            assert_eq!(f.request.directory.as_deref(), Some("/dir"));
            assert_eq!(f.timeout_ms, Some(30_000));
            let reply = ExecutorResponse::ok(Json::Null, None, Json::Bool(true));
            assert_eq!(finish_forward(&f, Ok(reply)).executor.as_deref(), Some("remote"));
            let failed = finish_forward(&f, Err(Error::of("boom")));
            assert_eq!(failed.error.as_deref(), Some("executor remote call failed: boom"));
            assert!(matches!(failed.id, Json::Text(s) if s == "r"));
        }
        _ => panic!("expected a forward"),
    }
}

#[test]
fn test_caller_routes_to_multiple_executors() {
    let c = connected(&["second", "first"]);
    for name in ["first", "second"] {
        match c.handle(&request("read", Some(name))) {
            CallerStep::Forward(f) => assert_eq!(f.executor, name),
            _ => panic!("expected a forward"),
        }
    }
    match c.handle(&request("read", Some("third"))) {
        CallerStep::Answer(a) => {
            assert_eq!(a.error.as_deref(), Some("executor not found: third"));
            assert_eq!(a.executor.as_deref(), Some("caller"));
        }
        _ => panic!("expected an answer"),
    }
    match c.list_executors().get("executors").unwrap() {
        Json::Array(v) => {
            let ids: Vec<_> = v.iter().map(|e| e.get_text("id").unwrap().to_string()).collect();
            assert_eq!(ids, ["first", "local", "second"]);
        }
        _ => panic!("expected a list"),
    }
}

#[test]
fn connecting_needs_a_name_and_an_introduction() {
    let mut c = caller();
    let blank = c.connect_to_executor(&connect(" ", "x"), Ok(introduction("x")));
    assert_eq!(blank.unwrap_err().to_string(), "executor id is required");
    let local = c.connect_to_executor(&connect("local", "x"), Ok(introduction("x")));
    assert_eq!(local.unwrap_err().to_string(), "local executor is reserved");
    assert!(connect_question(&connect("local", "x")).is_err());
    let lost = c.connect_to_executor(&connect("a", "x"), Err(Error::of("no route")));
    assert_eq!(lost.unwrap_err().to_string(), "no route");
    let refused = ExecutorResponse::err(Json::Null, None, "not me".to_string());
    let refused = c.connect_to_executor(&connect("a", "x"), Ok(refused));
    assert_eq!(refused.unwrap_err().to_string(), "not me");
    let empty = ExecutorResponse::ok(Json::Null, None, Json::Null);
    let empty = c.connect_to_executor(&connect("a", "x"), Ok(empty));
    assert_eq!(empty.unwrap_err().to_string(), "executor info missing version");
    let old = Json::Object(vec![("version".to_string(), Json::Text("1".to_string()))]);
    let old = c.connect_to_executor(&connect("a", "x"), Ok(ExecutorResponse::ok(Json::Null, None, old)));
    assert_eq!(old.unwrap_err().to_string(), "executor info missing capabilities");
    assert!(c.select_executor(Some("a")).is_err());
    assert_eq!(
        c.set_default_executor("a").unwrap_err().to_string(),
        "executor not found: a"
    );
    assert_eq!(c.default_executor(), "local");
}

#[test]
fn an_introduction_fills_what_the_request_left_open() {
    let c = connected(&["remote"]);
    let e = c.select_executor(Some("remote")).unwrap();
    assert_eq!(e.info.system.as_deref(), Some("test"));
    assert_eq!(e.info.device.as_deref(), Some("box"));
    assert_eq!(e.version.as_deref(), Some("9.9"));
    assert_eq!(e.protocol.as_deref(), Some("remote-executor"));
    assert!(e.file_transfer);
    let question = connect_question(&connect("remote", "wss://h")).unwrap();
    assert_eq!(question.url, "wss://h");
    assert_eq!(question.request.method, "_executor_info");
}

#[test]
fn labels_of_an_introduction_are_texts() {
    let metadata = Json::Object(vec![
        ("version".to_string(), Json::Text("1".to_string())),
        ("capabilities".to_string(), Json::empty()),
        (
            "labels".to_string(),
            Json::Object(vec![
                ("zone".to_string(), Json::Text("eu".to_string())),
                ("rank".to_string(), Json::Number(Number::Unsigned(1))),
            ]),
        ),
    ]);
    let mut c = caller();
    let reply = ExecutorResponse::ok(Json::Null, None, metadata);
    c.connect_to_executor(&connect("remote", "h"), Ok(reply)).unwrap();
    let e = c.select_executor(Some("remote")).unwrap();
    assert_eq!(e.info.labels, [("zone".to_string(), "eu".to_string())]);
    assert!(!e.file_transfer);
    assert_eq!(e.file_transfer_path, "/re-file/v1");
}

#[test]
fn writes_exclude_each_other_and_nothing_else() {
    let mut c = caller();
    assert!(c.enter("FileAction"));
    assert!(!c.enter("set_default_shell"));
    assert!(!c.enter("FileAction"));
    assert!(c.enter("read"));
    assert!(c.enter("exbash"));
    c.leave("read");
    assert!(!c.enter("FileAction"));
    c.leave("FileAction");
    assert!(c.enter("set_default_shell"));
    assert_eq!(
        Caller::refuse_write(&Json::Null).error.as_deref(),
        Some("another write operation is already running")
    );
}

fn with_param(method: &str, key: &str, value: Json) -> ExecutorRequest {
    let mut q = request(method, None);
    q.params = Json::Object(vec![(key.to_string(), value)]);
    q
}

#[test]
fn caller_allows_exbash_read_timeout_over_default_rpc_timeout() {
    let n = |v| Json::Number(Number::Unsigned(v));
    let of = |m, k, v| call_timeout_ms_for(&with_param(m, k, v));
    assert_eq!(of("exbash", "read_timeout", n(31_000)), Some(36_000));
    assert_eq!(of("exbash", "other", n(1)), Some(15_000));
    assert_eq!(of("exbash", "read_timeout", n(u64::MAX)), Some(u64::MAX));
    assert_eq!(of("rg", "timeout", Json::Number(Number::Negative(-1))), None);
    assert_eq!(of("glob", "timeout", Json::Number(Number::Negative(-7))), Some(5_000));
    assert_eq!(of("rg", "timeout", n(2)), Some(5_002));
    assert_eq!(of("glob", "other", n(2)), Some(15_000));
    assert_eq!(of("read", "timeout", n(2)), Some(30_000));
}

fn transfer(mode: FileTransferMode, overwrite: Option<bool>) -> FileTransferOptions {
    FileTransferOptions {
        mode,
        local_path: "./downloaded.bin".to_string(),
        target_path: "file.bin".to_string(),
        overwrite,
    }
}

#[test]
fn mcp_prepares_same_port_file_transfer_request() {
    let c = caller();
    let mut q = request("file_transfer", None);
    q.directory = None;
    assert!(matches!(c.handle(&q), CallerStep::FileTransfer));
    let response = c.file_transfer_response(&q, &transfer(FileTransferMode::Download, None));
    assert!(response.ok);
    let result = response.result.unwrap();
    let metadata = result.get("metadata").unwrap();
    assert_eq!(metadata.get_text("mode"), Some("download"));
    assert_eq!(metadata.get_text("method"), Some("GET"));
    assert_eq!(metadata.get_text("url"), Some("http://127.0.0.1:9000/re-file/v1"));
    assert_eq!(metadata.get("headers").unwrap().get_text("X-RE-Path"), Some("file.bin"));
    assert_eq!(metadata.get_text("localPath"), Some("./downloaded.bin"));
    assert_eq!(metadata.get_text("targetPath"), Some("file.bin"));
}

#[test]
fn transfers_say_where_and_how() {
    let c = caller();
    let q = request("file_transfer", None);
    let response = c.file_transfer_response(&q, &transfer(FileTransferMode::Upload, Some(true)));
    let result = response.result.unwrap();
    assert_eq!(
        result.get("output").unwrap().get_text("text"),
        Some(
            "PUT http://127.0.0.1:9000/re-file/v1\nX-RE-Directory: /dir\nX-RE-Overwrite: true\nX-RE-Path: file.bin"
        )
    );
    let missing = request("file_transfer", Some("nobody"));
    let response = c.file_transfer_response(&missing, &transfer(FileTransferMode::Upload, None));
    assert_eq!(response.error.as_deref(), Some("executor not found: nobody"));
}

#[test]
fn addresses_have_a_scheme() {
    assert_eq!(normalize_ws_url("h:1"), "ws://h:1");
    assert_eq!(normalize_ws_url("wss://h:1"), "wss://h:1");
    assert_eq!(http_file_transfer_url("ws://h:1").unwrap(), "http://h:1/re-file/v1");
    assert_eq!(http_file_transfer_url("wss://h").unwrap(), "https://h/re-file/v1");
    assert_eq!(
        http_file_transfer_url("h").unwrap_err().to_string(),
        "unsupported executor URL for file transfer: h"
    );
}

#[test]
fn errors_of_the_way_there_are_told() {
    assert_eq!(
        timed_out(5, "1").to_string(),
        "executor call timed out after 5ms for request 1"
    );
    assert_eq!(
        closed_early("\"a\"").to_string(),
        "executor closed before responding to request \"a\""
    );
    assert_eq!(
        refuse_params(&Json::Null, "file_transfer", "x").error.as_deref(),
        Some("bad file_transfer params: x")
    );
    assert_eq!(refuse_line("x").error.as_deref(), Some("invalid request: x"));
}

#[test]
fn one_write_runs_at_a_time() {
    let mut c = caller();
    assert!(c.enter("FileAction"));
    assert!(!c.enter("set_default_shell"));
    assert!(!c.enter("FileAction"));
    assert!(c.enter("read"));
    c.leave("read");
    assert!(!c.enter("FileAction"));
    c.leave("FileAction");
    assert!(c.enter("set_default_shell"));
}
