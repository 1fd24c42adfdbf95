use remote_executor::error::Error;
use remote_executor::executor::{
    apply_soft_timeout_param, dispatch_tool, effective_tool_timeout_ms, is_disconnect_error,
    refuse_text, tool_timed_out, Executor, Tool,
};
use remote_executor::json::{Json, Number};
use remote_executor::protocol::{
    tool_output, tool_output_full, tool_output_with_info, ExecutorRequest, ToolResult,
};
use remote_executor::stdio::{find_tool, handle_request, Outcome, StdioRequest, StdioTool};

fn request(method: &str, ms: Option<u64>) -> ExecutorRequest {
    ExecutorRequest {
        id: Json::Number(Number::Unsigned(1)),
        method: method.to_string(),
        params: Json::empty(),
        directory: None,
        executor: None,
        tool_timeout_ms: ms,
    }
}

fn executor() -> Executor {
    Executor::local("timeout".to_string(), "linux", None)
}

#[test]
fn executor_maps_rg_tool_timeout_to_soft_timeout() {
    let call = executor().handle(&request("rg", Some(0))).ok().unwrap();
    assert_eq!(call.limit_ms, None);
    assert_eq!(call.params.get("timeout").unwrap().as_u64(), Some(0));
    let own = Json::Object(vec![("timeout".to_string(), Json::Number(Number::Unsigned(9)))]);
    let kept = apply_soft_timeout_param("glob", own, Some(1));
    assert_eq!(kept.get("timeout").unwrap().as_u64(), Some(9));
    assert!(apply_soft_timeout_param("read", Json::empty(), Some(1)).get("timeout").is_none());
    let limit = |method, requested| {
        let params = apply_soft_timeout_param(method, Json::empty(), requested);
        params.get("timeout").unwrap().as_u64()
    };
    assert_eq!(limit("rg", None), Some(5_000));
    assert_eq!(limit("glob", Some(700)), Some(700));
    assert_eq!(limit("rg", Some(600_001)), Some(600_000));
}

#[test]
fn test_executor_does_not_apply_tool_timeout_to_exbash() {
    let call = executor().handle(&request("exbash", Some(0))).ok().unwrap();
    assert_eq!(call.tool, Tool::Exbash);
    assert_eq!(call.limit_ms, None);
    assert!(call.params.get("timeout").is_none());
}

#[test]
fn executor_applies_tool_timeout_to_small_tools() {
    let call = executor().handle(&request("stat", Some(0))).ok().unwrap();
    assert_eq!(call.limit_ms, Some(0));
    assert!(tool_timed_out("stat", 0).to_string().contains("timed out"));
    assert_eq!(tool_timed_out("stat", 7).to_string(), "tool stat timed out after 7ms");
    assert_eq!(effective_tool_timeout_ms(None), 5_000);
    assert_eq!(effective_tool_timeout_ms(Some(600_001)), 600_000);
    assert_eq!(effective_tool_timeout_ms(Some(599_999)), 599_999);
}

#[test]
fn tools_are_found_by_name() {
    for (name, tool) in [
        ("read", Tool::Read),
        ("stat", Tool::Stat),
        ("FileAction", Tool::FileAction),
        ("glob", Tool::Glob),
        ("set_default_shell", Tool::SetDefaultShell),
        ("list_shells", Tool::ListShells),
        ("rg", Tool::Rg),
        ("_executor_info", Tool::ExecutorInfo),
    ] {
        assert_eq!(dispatch_tool(name).unwrap(), tool);
    }
    assert_eq!(dispatch_tool("Read").unwrap_err().to_string(), "unknown method: Read");
}

#[test]
fn executors_tell_what_they_are() {
    let metadata = executor().executor_info("1.0").metadata;
    assert_eq!(metadata.get_text("protocol"), Some("remote-executor"));
    assert_eq!(metadata.get_text("version"), Some("1.0"));
    assert!(matches!(
        metadata.get("capabilities").unwrap().get("fileTransfer"),
        Some(Json::Bool(true))
    ));
    assert_eq!(metadata.get_text("fileTransferPath"), Some("/re-file/v1"));
    assert_eq!(executor().info().id, "timeout");
}

#[test]
fn responses_carry_the_request_and_the_executor() {
    let e = executor();
    let result = ToolResult { metadata: Json::empty(), output: tool_output("hi".to_string()) };
    let ok = e.respond(&Json::Text("q".to_string()), Ok(result));
    assert!(ok.ok);
    assert_eq!(ok.executor.as_deref(), Some("timeout"));
    let value = ok.result.unwrap();
    assert_eq!(value.get("output").unwrap().get_text("text"), Some("hi"));
    let err = e.respond(&Json::Null, Err(Error::of("no")));
    assert!(!err.ok);
    assert_eq!(err.error.as_deref(), Some("no"));
    assert_eq!(refuse_text("x").error.as_deref(), Some("invalid request: x"));
}

#[test]
fn outputs_have_three_parts() {
    let full = tool_output_full("m".to_string(), "t".to_string(), "i".to_string());
    assert_eq!(full.get_text("message"), Some("m"));
    let noted = tool_output_with_info("t".to_string(), "i".to_string());
    assert_eq!(noted.get_text("message"), Some(""));
    assert_eq!(noted.get_text("text"), Some("t"));
    assert_eq!(noted.get_text("info"), Some("i"));
}

#[test]
fn lost_connections_are_recognised() {
    assert!(is_disconnect_error("write: Broken pipe (os error 32)"));
    assert!(is_disconnect_error("Connection reset without closing handshake"));
    assert!(is_disconnect_error("x connection reset by peer"));
    assert!(!is_disconnect_error("broken pipe"));
}

fn line(method: &str) -> StdioRequest {
    StdioRequest {
        id: Json::Text("a".to_string()),
        method: method.to_string(),
        params: Json::empty(),
        directory: None,
        worktree: None,
    }
}

#[test]
fn the_bridge_knows_its_tools_by_more_than_one_name() {
    for (name, tool) in [
        ("exec", StdioTool::Exbash),
        ("exbash", StdioTool::Exbash),
        ("apply_diff", StdioTool::Diffy),
        ("diffy", StdioTool::Diffy),
        ("apply", StdioTool::Apply),
        ("apply_patch", StdioTool::Apply),
        ("grep", StdioTool::Grep),
        ("rg", StdioTool::Rg),
        ("glob", StdioTool::Glob),
        ("read", StdioTool::Read),
    ] {
        assert_eq!(find_tool(&line(name)).ok().unwrap(), tool);
    }
    let refused = find_tool(&line("nope")).err().unwrap();
    assert_eq!(refused.error.as_deref(), Some("unknown method: nope"));
    let bad = handle_request(&line("glob"), StdioTool::Glob, Outcome::BadParams("x".to_string()));
    assert_eq!(bad.error.as_deref(), Some("bad glob params: x"));
    let failed =
        handle_request(&line("apply"), StdioTool::Apply, Outcome::Failed(Error::of("stale")));
    assert_eq!(failed.error.as_deref(), Some("stale"));
    let done = handle_request(&line("rg"), StdioTool::Rg, Outcome::Returned(Json::Bool(true)));
    assert!(done.ok && matches!(done.result, Some(Json::Bool(true))));
}

#[test]
fn small_tools_have_a_limit() {
    for method in ["read", "glob", "stat", "FileAction"] {
        let call = executor().handle(&request(method, None)).ok().unwrap();
        assert_eq!(call.limit_ms, Some(5_000), "{method}");
        let call = executor().handle(&request(method, Some(900_000))).ok().unwrap();
        assert_eq!(call.limit_ms, Some(600_000), "{method}");
    }
    let call = executor().handle(&request("rg", None)).ok().unwrap();
    assert_eq!(call.limit_ms, None);
    assert_eq!(call.params.get("timeout").unwrap().as_u64(), Some(5_000));
}
