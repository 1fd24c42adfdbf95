use remote_executor::executor::dispatch_tool;
use remote_executor::json::{Json, Number};
use remote_executor::mcp::{answer_tool_call, handle_mcp_line, handle_mcp_message, parse_error, tools, McpStep};
use remote_executor::protocol::ExecutorResponse;

fn text(s: &str) -> Json {
    Json::Text(s.to_string())
}

fn number(n: u64) -> Json {
    Json::Number(Number::Unsigned(n))
}

fn object(entries: Vec<(&str, Json)>) -> Json {
    Json::Object(entries.into_iter().map(|(k, v)| (k.to_string(), v)).collect())
}

fn message(id: Option<u64>, method: &str, params: Json) -> Json {
    let mut entries = vec![("jsonrpc", text("2.0")), ("method", text(method)), ("params", params)];
    if let Some(id) = id {
        entries.push(("id", number(id)));
    }
    object(entries)
}

fn answer(m: Json) -> Json {
    match handle_mcp_message(&m, "1.2.3") {
        McpStep::Answer(j) => j,
        _ => panic!("expected an answer"),
    }
}

fn items(j: &Json) -> &Vec<Json> {
    match j {
        Json::Array(v) => v,
        _ => panic!("expected a list"),
    }
}

fn find<'a>(tools: &'a [Json], name: &str) -> Option<&'a Json> {
    tools.iter().find(|t| t.get_text("name") == Some(name))
}

fn has(tool: &Json, property: &str) -> bool {
    tool.get("inputSchema").unwrap().get("properties").unwrap().get(property).is_some()
}

#[test]
fn mcp_test_mcp_initialize_and_lists_tools() {
    let initialized = answer(message(Some(1), "initialize", Json::empty()));
    assert_eq!(
        initialized.get("result").unwrap().get("serverInfo").unwrap().get_text("name"),
        Some("remote-caller-mcp")
    );

    let listed = answer(message(Some(2), "tools/list", Json::empty()));
    let tools = items(listed.get("result").unwrap().get("tools").unwrap());
    assert!(find(tools, "read").is_some());
    assert!(find(tools, "stat").is_some());
    assert!(find(tools, "connect_to_executor").is_some());
    let read = find(tools, "read").unwrap();
    assert!(has(read, "targetExecutor"));
    assert!(has(read, "directory"));
    assert!(!has(read, "callTimeoutMs"));
    assert!(has(read, "hashCheckMode"));

    let action = find(tools, "FileAction").unwrap();
    assert!(has(action, "mode"));
    assert!(has(action, "filePath"));
    assert!(has(action, "newFilePath"));
    assert!(has(action, "content"));
    assert!(has(action, "patchMode"));
    assert!(has(action, "hashCode"));
    assert!(find(tools, "apply_patch").is_none());
    assert!(find(tools, "diffy").is_none());

    let list = find(tools, "list_executor").unwrap();
    assert!(!has(list, "targetExecutor"));
    assert!(!has(list, "directory"));

    for gone in ["exbash_shell", "exbash_list", "exbash_attach", "exbash_stop", "exbash_remove"] {
        assert!(find(tools, gone).is_none());
    }

    let exbash = find(tools, "exbash").unwrap();
    for property in ["mode", "read_timeout", "shell", "asyncID", "text", "showRawPretty"] {
        assert!(has(exbash, property), "{property}");
    }
    assert!(!has(exbash, "async_timeout"));
    assert!(has(exbash, "targetExecutor"));
    assert!(has(exbash, "directory"));
    assert!(find(tools, "set_default_shell").is_some());
    assert!(find(tools, "list_shells").is_some());
    let reload = find(tools, "request_reload").unwrap();
    assert!(has(reload, "targetExecutor"));
    assert!(!has(reload, "directory"));

    let transfer = find(tools, "file_transfer").unwrap();
    assert!(has(transfer, "mode"));
    assert!(has(transfer, "localPath"));
    assert!(has(transfer, "targetPath"));
    assert!(!has(transfer, "filePath"));
    assert!(has(transfer, "targetExecutor"));
    assert!(!has(transfer, "directory"));
}

#[test]
fn every_tool_has_a_schema() {
    for tool in tools() {
        let schema = tool.get("inputSchema").unwrap();
        assert_eq!(schema.get_text("type"), Some("object"));
        for name in items(schema.get("required").unwrap()) {
            match name {
                Json::Text(s) => assert!(has(&tool, s)),
                _ => panic!("expected a name"),
            }
        }
    }
}

#[test]
fn mcp_test_mcp_calls_caller_tool_over_stdio_shape() {
    let m = message(
        Some(3),
        "tools/call",
        object(vec![
            ("name", text("read")),
            (
                "arguments",
                object(vec![("filePath", text("file.txt")), ("directory", text("/dir"))]),
            ),
        ]),
    );
    let request = match handle_mcp_message(&m, "1") {
        McpStep::Call(q) => q,
        _ => panic!("expected a call"),
    };
    assert_eq!(request.method, "read");
    assert_eq!(request.directory.as_deref(), Some("/dir"));
    assert_eq!(request.params.get_text("filePath"), Some("file.txt"));
    assert!(request.params.get("directory").is_none());
    let result = object(vec![("output", object(vec![("text", text("1: hello mcp"))]))]);
    let response = ExecutorResponse::ok(request.id.copy(), None, result);
    let answer = answer_tool_call(request.id, response);
    assert_eq!(answer.get_text("jsonrpc"), Some("2.0"));
    assert_eq!(answer.get("id").unwrap().as_u64(), Some(3));
    let result = answer.get("result").unwrap();
    assert!(matches!(result.get("isError"), Some(Json::Bool(false))));
    let content = items(result.get("content").unwrap());
    assert!(content[0].get_text("text").unwrap().contains("hello mcp"));
}

#[test]
fn outputs_that_are_texts_are_shown_as_they_are() {
    let response = ExecutorResponse::ok(number(1), None, object(vec![("output", text("plain"))]));
    let answer = answer_tool_call(number(1), response);
    let content = items(answer.get("result").unwrap().get("content").unwrap());
    assert_eq!(content[0].get_text("text"), Some("plain"));
    let failed = ExecutorResponse::err(number(1), None, "bad".to_string());
    let answer = answer_tool_call(number(1), failed);
    let result = answer.get("result").unwrap();
    assert!(matches!(result.get("isError"), Some(Json::Bool(true))));
    assert_eq!(items(result.get("content").unwrap())[0].get_text("text"), Some("bad"));
}

#[test]
fn calls_are_routed_by_their_arguments() {
    let m = message(
        Some(4),
        "tools/call",
        object(vec![
            ("name", text("rg")),
            (
                "arguments",
                object(vec![
                    ("pattern", text("x")),
                    ("target_executor", text("old")),
                    ("toolTimeoutMs", number(7)),
                ]),
            ),
        ]),
    );
    match handle_mcp_message(&m, "1") {
        McpStep::Call(q) => {
            assert_eq!(q.executor.as_deref(), Some("old"));
            assert_eq!(q.tool_timeout_ms, Some(7));
            assert!(q.params.get("target_executor").is_none());
            assert!(q.params.get("toolTimeoutMs").is_none());
            assert_eq!(q.params.get_text("pattern"), Some("x"));
        }
        _ => panic!("expected a call"),
    }
}

#[test]
fn mcp_test_mcp_notifications_do_not_return_response() {
    let m = message(None, "notifications/initialized", Json::empty());
    assert!(matches!(handle_mcp_message(&m, "1"), McpStep::Silent));
}

#[test]
fn unknown_messages_are_refused() {
    let unknown = answer(message(Some(5), "resources/list", Json::empty()));
    let error = unknown.get("error").unwrap();
    assert_eq!(error.get("code").unwrap().as_i64(), Some(-32601));
    assert_eq!(error.get_text("message"), Some("method not found: resources/list"));
    let ping = answer(message(Some(6), "ping", Json::empty()));
    assert!(ping.get("result").unwrap().is_object());
    let nameless = answer(message(Some(7), "tools/call", Json::empty()));
    assert!(matches!(
        nameless.get("result").unwrap().get("isError"),
        Some(Json::Bool(true))
    ));
    let broken = parse_error("eof");
    assert_eq!(broken.get("error").unwrap().get("code").unwrap().as_i64(), Some(-32700));
    assert_eq!(broken.get("error").unwrap().get_text("message"), Some("parse error: eof"));
}

#[test]
fn listed_tools_are_known() {
    let own =
        ["list_executor", "connect_to_executor", "set_default_executor", "file_transfer"];
    for tool in tools() {
        let name = tool.get_text("name").unwrap().to_string();
        assert!(
            name == "request_reload" || own.contains(&name.as_str()) || dispatch_tool(&name).is_ok(),
            "{name}"
        );
    }
}

#[test]
fn lines_are_read_as_messages() {
    assert!(matches!(handle_mcp_line("{\"method\": \"ping\"}", "1"), McpStep::Silent));
    match handle_mcp_line("{\"id\": 7, \"method\": \"ping\"}", "1") {
        McpStep::Answer(answer) => assert_eq!(answer.get("id").unwrap().as_u64(), Some(7)),
        _ => panic!("expected an answer"),
    }
    match handle_mcp_line("{", "1") {
        McpStep::Answer(answer) => {
            let message = answer.get("error").unwrap().get_text("message").unwrap();
            assert!(message.starts_with("parse error: EOF"), "{message}");
        }
        _ => panic!("expected an answer"),
    }
}
