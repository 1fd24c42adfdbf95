//! The caller's tools as an MCP server offers them.
//!
//! Messages come in and go out as structured values; the tool calls among them
//! become requests to the caller.

pub mod laws;

use crate::caller::answers_itself;
use crate::executor::tool_named;
use crate::json::value::{as_sent, json_read, parse_json, pretty, pretty_text};
use crate::json::{
    add_item, drop_entry, entries_view, field, fields_of, items_view, put, text_at, unsigned_of,
    Json, JsonView, Number, NumberView,
};
use crate::protocol::{
    opt_text, ExecutorRequest, ExecutorRequestView, ExecutorResponse, ExecutorResponseView,
};
use crate::text::{owned, same_text};
use vstd::prelude::*;
use vstd::utf8::encode_utf8;

verus! {

/// The schema of a value of some type.
pub open spec fn type_json(kind: Seq<char>) -> JsonView {
    JsonView::Object(Map::empty().insert("type"@, JsonView::Text(kind)))
}

fn type_value(kind: &str) -> (r: Json)
    ensures
        r@ == type_json(kind@),
{
    let mut e: Vec<(String, Json)> = Vec::new();
    put(&mut e, "type", Json::text(kind));
    Json::Object(e)
}

/// What an answer says that went well.
pub open spec fn success(id: JsonView, result: JsonView) -> JsonView {
    JsonView::Object(
        Map::empty().insert("jsonrpc"@, JsonView::Text("2.0"@)).insert("id"@, id).insert(
            "result"@,
            result,
        ),
    )
}

/// What an answer says that went wrong.
pub open spec fn failure(id: JsonView, code: i64, message: Seq<char>) -> JsonView {
    JsonView::Object(
        Map::empty().insert("jsonrpc"@, JsonView::Text("2.0"@)).insert("id"@, id).insert(
            "error"@,
            JsonView::Object(
                Map::empty().insert("code"@, JsonView::Number(NumberView::Negative(code))).insert(
                    "message"@,
                    JsonView::Text(message),
                ),
            ),
        ),
    )
}

pub fn success_response(id: Json, result: Json) -> (r: Json)
    ensures
        r@ == success(id@, result@),
{
    let mut e: Vec<(String, Json)> = Vec::new();
    put(&mut e, "jsonrpc", Json::text("2.0"));
    put(&mut e, "id", id);
    put(&mut e, "result", result);
    Json::Object(e)
}

fn error_response(id: Json, code: i64, message: String) -> (r: Json)
    ensures
        r@ == failure(id@, code, message@),
{
    let mut inner: Vec<(String, Json)> = Vec::new();
    put(&mut inner, "code", Json::Number(Number::Negative(code)));
    put(&mut inner, "message", Json::Text(message));
    let mut e: Vec<(String, Json)> = Vec::new();
    put(&mut e, "jsonrpc", Json::text("2.0"));
    put(&mut e, "id", id);
    put(&mut e, "error", Json::Object(inner));
    Json::Object(e)
}

/// The answer to a line that is no message.
pub fn parse_error(fault: &str) -> (r: Json)
    ensures
        r@ == failure(JsonView::Null, (-32700) as i64, "parse error: "@ + fault@),
{
    let mut m = owned("parse error: ");
    m.append(fault);
    error_response(Json::Null, -32700, m)
}

/// One piece of text, in the form in which tools return it.
pub open spec fn text_content(text: Seq<char>) -> JsonView {
    JsonView::Array(
        seq![
            JsonView::Object(
                Map::empty().insert("type"@, JsonView::Text("text"@)).insert(
                    "text"@,
                    JsonView::Text(text),
                ),
            ),
        ],
    )
}

fn content_value(text: String) -> (r: Json)
    ensures
        r@ == text_content(text@),
{
    let mut e: Vec<(String, Json)> = Vec::new();
    put(&mut e, "type", Json::text("text"));
    put(&mut e, "text", Json::Text(text));
    let mut items: Vec<Json> = Vec::new();
    add_item(&mut items, Json::Object(e));
    Json::Array(items)
}

/// What a tool call returns that went wrong.
pub open spec fn tool_failure(message: Seq<char>) -> JsonView {
    JsonView::Object(
        Map::empty().insert("content"@, text_content(message)).insert(
            "isError"@,
            JsonView::Bool(true),
        ),
    )
}

fn tool_error(message: String) -> (r: Json)
    ensures
        r@ == tool_failure(message@),
{
    let mut e: Vec<(String, Json)> = Vec::new();
    put(&mut e, "content", content_value(message));
    put(&mut e, "isError", Json::Bool(true));
    Json::Object(e)
}

/// The result of an executor's response.
pub open spec fn result_of(response: ExecutorResponseView) -> JsonView {
    match response.result {
        Some(j) => j,
        None => JsonView::Null,
    }
}

/// What a tool call returns: the result, and as its text the output where that
/// is a text, else the whole result as `shown` has it.
pub open spec fn tool_call_result(response: ExecutorResponseView, shown: Seq<char>) -> JsonView {
    if !response.ok {
        tool_failure(
            match response.error {
                Some(m) => m,
                None => "tool call failed"@,
            },
        )
    } else {
        JsonView::Object(
            Map::empty().insert(
                "content"@,
                text_content(
                    match text_at(result_of(response), "output"@) {
                        Some(s) => s,
                        None => shown,
                    },
                ),
            ).insert("structuredContent"@, result_of(response)).insert(
                "isError"@,
                JsonView::Bool(false),
            ),
        )
    }
}

/// The whole result of a response as people like to read it.
pub open spec fn result_text(response: ExecutorResponseView) -> Seq<char> {
    pretty(as_sent(result_of(response)))
}

/// What a tool call returns.
pub fn response_to_tool_result(response: ExecutorResponse) -> (r: Json)
    ensures
        r@ == tool_call_result(response@, result_text(response@)),
{
    let shown = match &response.result {
        Some(j) => pretty_text(j),
        None => pretty_text(&Json::Null),
    };
    show_tool_result(response, shown.as_str())
}

/// What a tool call returns whose whole result is `shown` as text.
pub fn show_tool_result(response: ExecutorResponse, shown: &str) -> (r: Json)
    ensures
        r@ == tool_call_result(response@, shown@),
{
    if !response.ok {
        return tool_error(
            match response.error {
                Some(m) => m,
                None => owned("tool call failed"),
            },
        );
    }
    let result = match response.result {
        Some(j) => j,
        None => Json::Null,
    };
    let text = match result.get_text("output") {
        Some(s) => owned(s),
        None => owned(shown),
    };
    let mut e: Vec<(String, Json)> = Vec::new();
    put(&mut e, "content", content_value(text));
    put(&mut e, "structuredContent", result);
    put(&mut e, "isError", Json::Bool(false));
    Json::Object(e)
}

/// The answer to a tool call, from the response to the request that it became.
pub fn answer_tool_call(id: Json, response: ExecutorResponse) -> (r: Json)
    ensures
        r@ == success(id@, tool_call_result(response@, result_text(response@))),
{
    success_response(id, response_to_tool_result(response))
}

/// What this server says of itself.
pub open spec fn server_info(version: Seq<char>) -> JsonView {
    JsonView::Object(
        Map::empty().insert("protocolVersion"@, JsonView::Text("2024-11-05"@)).insert(
            "capabilities"@,
            JsonView::Object(
                Map::empty().insert(
                    "tools"@,
                    JsonView::Object(Map::empty().insert("listChanged"@, JsonView::Bool(false))),
                ),
            ),
        ).insert(
            "serverInfo"@,
            JsonView::Object(
                Map::empty().insert("name"@, JsonView::Text("remote-caller-mcp"@)).insert(
                    "version"@,
                    JsonView::Text(version),
                ),
            ),
        ),
    )
}

fn initialize_result(version: &str) -> (r: Json)
    ensures
        r@ == server_info(version@),
{
    let mut tools: Vec<(String, Json)> = Vec::new();
    put(&mut tools, "listChanged", Json::Bool(false));
    let mut capabilities: Vec<(String, Json)> = Vec::new();
    put(&mut capabilities, "tools", Json::Object(tools));
    let mut server: Vec<(String, Json)> = Vec::new();
    put(&mut server, "name", Json::text("remote-caller-mcp"));
    put(&mut server, "version", Json::text(version));
    let mut e: Vec<(String, Json)> = Vec::new();
    put(&mut e, "protocolVersion", Json::text("2024-11-05"));
    put(&mut e, "capabilities", Json::Object(capabilities));
    put(&mut e, "serverInfo", Json::Object(server));
    Json::Object(e)
}

/// Which of the routing arguments a tool takes besides its own.
#[derive(Clone, Copy, Debug, PartialEq, Eq, Structural)]
pub enum Routing {
    Executor,
    ExecutorAndDirectory,
    Nowhere,
}

/// The arguments of a tool with those by which a call is routed.
pub open spec fn routed(props: Map<Seq<char>, JsonView>, routing: Routing) -> Map<
    Seq<char>,
    JsonView,
> {
    match routing {
        Routing::Nowhere => props,
        Routing::Executor => props.insert("targetExecutor"@, type_json("string"@)),
        Routing::ExecutorAndDirectory => props.insert(
            "targetExecutor"@,
            type_json("string"@),
        ).insert("directory"@, type_json("string"@)),
    }
}

/// A tool as the server lists it.
pub open spec fn tool_json(
    name: Seq<char>,
    description: Seq<char>,
    required: Seq<JsonView>,
    props: Map<Seq<char>, JsonView>,
    routing: Routing,
) -> JsonView {
    JsonView::Object(
        Map::empty().insert("name"@, JsonView::Text(name)).insert(
            "description"@,
            JsonView::Text(description),
        ).insert(
            "inputSchema"@,
            JsonView::Object(
                Map::empty().insert("type"@, JsonView::Text("object"@)).insert(
                    "properties"@,
                    JsonView::Object(routed(props, routing)),
                ).insert("required"@, JsonView::Array(required)),
            ),
        ),
    )
}

fn tool(
    name: &str,
    description: &str,
    required: Vec<Json>,
    props: Vec<(String, Json)>,
    routing: Routing,
) -> (r: Json)
    ensures
        r@ == tool_json(
            name@,
            description@,
            items_view(required@),
            entries_view(props@),
            routing,
        ),
{
    let mut props = props;
    match routing {
        Routing::Nowhere => {},
        Routing::Executor => {
            put(&mut props, "targetExecutor", type_value("string"));
        },
        Routing::ExecutorAndDirectory => {
            put(&mut props, "targetExecutor", type_value("string"));
            put(&mut props, "directory", type_value("string"));
        },
    }
    let mut schema: Vec<(String, Json)> = Vec::new();
    put(&mut schema, "type", Json::text("object"));
    put(&mut schema, "properties", Json::Object(props));
    put(&mut schema, "required", Json::Array(required));
    let mut e: Vec<(String, Json)> = Vec::new();
    put(&mut e, "name", Json::text(name));
    put(&mut e, "description", Json::text(description));
    put(&mut e, "inputSchema", Json::Object(schema));
    Json::Object(e)
}

fn prop(props: &mut Vec<(String, Json)>, name: &str, kind: &str)
    ensures
        entries_view(final(props)@) == entries_view(old(props)@).insert(name@, type_json(kind@)),
{
    put(props, name, type_value(kind));
}

fn need(required: &mut Vec<Json>, name: &str)
    ensures
        items_view(final(required)@) == items_view(old(required)@).push(JsonView::Text(name@)),
{
    add_item(required, Json::text(name));
}

pub open spec fn read_tool() -> JsonView {
    tool_json(
        "read"@,
        "Read a file or directory"@,
        seq![JsonView::Text("filePath"@)],
        Map::empty().insert("filePath"@, type_json("string"@)).insert(
            "offset"@,
            type_json("number"@),
        ).insert("limit"@, type_json("number"@)).insert("hashCheckMode"@, type_json("boolean"@)),
        Routing::ExecutorAndDirectory,
    )
}

fn make_read_tool() -> (r: Json)
    ensures
        r@ == read_tool(),
{
    let mut required: Vec<Json> = Vec::new();
    need(&mut required, "filePath");
    let mut props: Vec<(String, Json)> = Vec::new();
    prop(&mut props, "filePath", "string");
    prop(&mut props, "offset", "number");
    prop(&mut props, "limit", "number");
    prop(&mut props, "hashCheckMode", "boolean");
    tool("read", "Read a file or directory", required, props, Routing::ExecutorAndDirectory)
}

pub open spec fn glob_tool() -> JsonView {
    tool_json(
        "glob"@,
        "Find files by glob pattern"@,
        seq![JsonView::Text("pattern"@)],
        Map::empty().insert("pattern"@, type_json("string"@)).insert(
            "path"@,
            type_json("string"@),
        ),
        Routing::ExecutorAndDirectory,
    )
}

fn make_glob_tool() -> (r: Json)
    ensures
        r@ == glob_tool(),
{
    let mut required: Vec<Json> = Vec::new();
    need(&mut required, "pattern");
    let mut props: Vec<(String, Json)> = Vec::new();
    prop(&mut props, "pattern", "string");
    prop(&mut props, "path", "string");
    tool("glob", "Find files by glob pattern", required, props, Routing::ExecutorAndDirectory)
}

pub open spec fn stat_tool() -> JsonView {
    tool_json(
        "stat"@,
        "Tell the identity, kind, size and age of a file"@,
        seq![JsonView::Text("filePath"@)],
        Map::empty().insert("filePath"@, type_json("string"@)),
        Routing::ExecutorAndDirectory,
    )
}

fn make_stat_tool() -> (r: Json)
    ensures
        r@ == stat_tool(),
{
    let mut required: Vec<Json> = Vec::new();
    need(&mut required, "filePath");
    let mut props: Vec<(String, Json)> = Vec::new();
    prop(&mut props, "filePath", "string");
    tool(
        "stat",
        "Tell the identity, kind, size and age of a file",
        required,
        props,
        Routing::ExecutorAndDirectory,
    )
}

pub open spec fn file_action_tool() -> JsonView {
    tool_json(
        "FileAction"@,
        "Create, delete, rename or patch a file"@,
        seq![JsonView::Text("mode"@), JsonView::Text("filePath"@)],
        Map::empty().insert("mode"@, type_json("string"@)).insert(
            "filePath"@,
            type_json("string"@),
        ).insert("newFilePath"@, type_json("string"@)).insert("content"@, type_json("string"@)).insert(
            "patchText"@,
            type_json("string"@),
        ).insert("patchMode"@, type_json("string"@)).insert(
            "hashCheckMode"@,
            type_json("boolean"@),
        ).insert("hashCode"@, type_json("string"@)),
        Routing::ExecutorAndDirectory,
    )
}

fn make_file_action_tool() -> (r: Json)
    ensures
        r@ == file_action_tool(),
{
    let mut required: Vec<Json> = Vec::new();
    need(&mut required, "mode");
    need(&mut required, "filePath");
    proof {
        assert(items_view(required@) =~= seq![JsonView::Text("mode"@), JsonView::Text("filePath"@)]);
    }
    let mut props: Vec<(String, Json)> = Vec::new();
    prop(&mut props, "mode", "string");
    prop(&mut props, "filePath", "string");
    prop(&mut props, "newFilePath", "string");
    prop(&mut props, "content", "string");
    prop(&mut props, "patchText", "string");
    prop(&mut props, "patchMode", "string");
    prop(&mut props, "hashCheckMode", "boolean");
    prop(&mut props, "hashCode", "string");
    tool(
        "FileAction",
        "Create, delete, rename or patch a file",
        required,
        props,
        Routing::ExecutorAndDirectory,
    )
}

pub open spec fn exbash_tool() -> JsonView {
    tool_json(
        "exbash"@,
        "Run and control commands; a command detaches if it exceeds read_timeout"@,
        seq![JsonView::Text("mode"@)],
        Map::empty().insert("mode"@, type_json("string"@)).insert(
            "command"@,
            type_json("string"@),
        ).insert("shell"@, type_json("string"@)).insert("description"@, type_json("string"@)).insert(
            "workdir"@,
            type_json("string"@),
        ).insert("timeout"@, type_json("number"@)).insert("read_timeout"@, type_json("number"@)).insert(
            "asyncID"@,
            type_json("string"@),
        ).insert("text"@, type_json("string"@)).insert("filePath"@, type_json("string"@)).insert(
            "showRawPretty"@,
            type_json("boolean"@),
        ),
        Routing::ExecutorAndDirectory,
    )
}

fn make_exbash_tool() -> (r: Json)
    ensures
        r@ == exbash_tool(),
{
    let mut required: Vec<Json> = Vec::new();
    need(&mut required, "mode");
    let mut props: Vec<(String, Json)> = Vec::new();
    prop(&mut props, "mode", "string");
    prop(&mut props, "command", "string");
    prop(&mut props, "shell", "string");
    prop(&mut props, "description", "string");
    prop(&mut props, "workdir", "string");
    prop(&mut props, "timeout", "number");
    prop(&mut props, "read_timeout", "number");
    prop(&mut props, "asyncID", "string");
    prop(&mut props, "text", "string");
    prop(&mut props, "filePath", "string");
    prop(&mut props, "showRawPretty", "boolean");
    tool(
        "exbash",
        "Run and control commands; a command detaches if it exceeds read_timeout",
        required,
        props,
        Routing::ExecutorAndDirectory,
    )
}

pub open spec fn rg_tool() -> JsonView {
    tool_json(
        "rg"@,
        "Ripgrep-style search"@,
        seq![JsonView::Text("pattern"@)],
        Map::empty().insert("pattern"@, type_json("string"@)).insert(
            "root"@,
            type_json("string"@),
        ).insert("path"@, type_json("string"@)).insert("globs"@, type_json("array"@)).insert(
            "case_sensitive"@,
            type_json("boolean"@),
        ).insert("max_count"@, type_json("number"@)),
        Routing::ExecutorAndDirectory,
    )
}

fn make_rg_tool() -> (r: Json)
    ensures
        r@ == rg_tool(),
{
    let mut required: Vec<Json> = Vec::new();
    need(&mut required, "pattern");
    let mut props: Vec<(String, Json)> = Vec::new();
    prop(&mut props, "pattern", "string");
    prop(&mut props, "root", "string");
    prop(&mut props, "path", "string");
    prop(&mut props, "globs", "array");
    prop(&mut props, "case_sensitive", "boolean");
    prop(&mut props, "max_count", "number");
    tool("rg", "Ripgrep-style search", required, props, Routing::ExecutorAndDirectory)
}

pub open spec fn set_default_shell_tool() -> JsonView {
    tool_json(
        "set_default_shell"@,
        "Set the default shell of an Executor"@,
        seq![JsonView::Text("shell"@)],
        Map::empty().insert("shell"@, type_json("string"@)),
        Routing::ExecutorAndDirectory,
    )
}

fn make_set_default_shell_tool() -> (r: Json)
    ensures
        r@ == set_default_shell_tool(),
{
    let mut required: Vec<Json> = Vec::new();
    need(&mut required, "shell");
    let mut props: Vec<(String, Json)> = Vec::new();
    prop(&mut props, "shell", "string");
    tool(
        "set_default_shell",
        "Set the default shell of an Executor",
        required,
        props,
        Routing::ExecutorAndDirectory,
    )
}

pub open spec fn list_shells_tool() -> JsonView {
    tool_json(
        "list_shells"@,
        "List the shells of an Executor"@,
        seq![],
        Map::empty(),
        Routing::ExecutorAndDirectory,
    )
}

pub open spec fn request_reload_tool() -> JsonView {
    tool_json(
        "request_reload"@,
        "Ask an Executor to read its settings again"@,
        seq![],
        Map::empty(),
        Routing::Executor,
    )
}

pub open spec fn list_executor_tool() -> JsonView {
    tool_json(
        "list_executor"@,
        "List connected executors"@,
        seq![],
        Map::empty(),
        Routing::Nowhere,
    )
}

fn make_plain_tool(name: &str, description: &str, routing: Routing) -> (r: Json)
    ensures
        r@ == tool_json(name@, description@, seq![], Map::empty(), routing),
{
    let required: Vec<Json> = Vec::new();
    let props: Vec<(String, Json)> = Vec::new();
    tool(name, description, required, props, routing)
}

pub open spec fn file_transfer_tool() -> JsonView {
    tool_json(
        "file_transfer"@,
        "Prepare a direct file download or upload"@,
        seq![
            JsonView::Text("mode"@),
            JsonView::Text("localPath"@),
            JsonView::Text("targetPath"@),
        ],
        Map::empty().insert("mode"@, type_json("string"@)).insert(
            "localPath"@,
            type_json("string"@),
        ).insert("targetPath"@, type_json("string"@)).insert("overwrite"@, type_json("boolean"@)),
        Routing::Executor,
    )
}

fn make_file_transfer_tool() -> (r: Json)
    ensures
        r@ == file_transfer_tool(),
{
    let mut required: Vec<Json> = Vec::new();
    need(&mut required, "mode");
    need(&mut required, "localPath");
    need(&mut required, "targetPath");
    proof {
        assert(items_view(required@) =~= seq![JsonView::Text("mode"@), JsonView::Text("localPath"@), JsonView::Text("targetPath"@)]);
    }
    let mut props: Vec<(String, Json)> = Vec::new();
    prop(&mut props, "mode", "string");
    prop(&mut props, "localPath", "string");
    prop(&mut props, "targetPath", "string");
    prop(&mut props, "overwrite", "boolean");
    tool(
        "file_transfer",
        "Prepare a direct file download or upload",
        required,
        props,
        Routing::Executor,
    )
}

pub open spec fn connect_tool() -> JsonView {
    tool_json(
        "connect_to_executor"@,
        "Connect a WebSocket Executor"@,
        seq![JsonView::Text("id"@), JsonView::Text("url"@)],
        Map::empty().insert("id"@, type_json("string"@)).insert("url"@, type_json("string"@)).insert(
            "system"@,
            type_json("string"@),
        ).insert("device"@, type_json("string"@)).insert("labels"@, type_json("object"@)),
        Routing::Nowhere,
    )
}

fn make_connect_tool() -> (r: Json)
    ensures
        r@ == connect_tool(),
{
    let mut required: Vec<Json> = Vec::new();
    need(&mut required, "id");
    need(&mut required, "url");
    proof {
        assert(items_view(required@) =~= seq![JsonView::Text("id"@), JsonView::Text("url"@)]);
    }
    let mut props: Vec<(String, Json)> = Vec::new();
    prop(&mut props, "id", "string");
    prop(&mut props, "url", "string");
    prop(&mut props, "system", "string");
    prop(&mut props, "device", "string");
    prop(&mut props, "labels", "object");
    tool("connect_to_executor", "Connect a WebSocket Executor", required, props, Routing::Nowhere)
}

pub open spec fn set_default_tool() -> JsonView {
    tool_json(
        "set_default_executor"@,
        "Set the default Executor"@,
        seq![JsonView::Text("id"@)],
        Map::empty().insert("id"@, type_json("string"@)),
        Routing::Nowhere,
    )
}

fn make_set_default_tool() -> (r: Json)
    ensures
        r@ == set_default_tool(),
{
    let mut required: Vec<Json> = Vec::new();
    need(&mut required, "id");
    let mut props: Vec<(String, Json)> = Vec::new();
    prop(&mut props, "id", "string");
    tool("set_default_executor", "Set the default Executor", required, props, Routing::Nowhere)
}

/// The tools that the server offers.
pub open spec fn tool_list() -> Seq<JsonView> {
    seq![
        read_tool(),
        glob_tool(),
        stat_tool(),
        file_action_tool(),
        exbash_tool(),
        rg_tool(),
        set_default_shell_tool(),
        list_shells_tool(),
        request_reload_tool(),
        file_transfer_tool(),
        list_executor_tool(),
        connect_tool(),
        set_default_tool(),
    ]
}

pub fn tools() -> (r: Vec<Json>)
    ensures
        items_view(r@) == tool_list(),
{
    let mut out: Vec<Json> = Vec::new();
    add_item(&mut out, make_read_tool());
    add_item(&mut out, make_glob_tool());
    add_item(&mut out, make_stat_tool());
    add_item(&mut out, make_file_action_tool());
    add_item(&mut out, make_exbash_tool());
    add_item(&mut out, make_rg_tool());
    add_item(&mut out, make_set_default_shell_tool());
    add_item(
        &mut out,
        make_plain_tool(
            "list_shells",
            "List the shells of an Executor",
            Routing::ExecutorAndDirectory,
        ),
    );
    add_item(
        &mut out,
        make_plain_tool(
            "request_reload",
            "Ask an Executor to read its settings again",
            Routing::Executor,
        ),
    );
    add_item(&mut out, make_file_transfer_tool());
    add_item(
        &mut out,
        make_plain_tool("list_executor", "List connected executors", Routing::Nowhere),
    );
    add_item(&mut out, make_connect_tool());
    add_item(&mut out, make_set_default_tool());
    out
}

/// A text that is taken out of the arguments of a call.
pub open spec fn taken_text(m: Map<Seq<char>, JsonView>, key: Seq<char>) -> Option<Seq<char>> {
    text_at(JsonView::Object(m), key)
}

pub open spec fn taken_number(m: Map<Seq<char>, JsonView>, key: Seq<char>) -> Option<u64> {
    match field(JsonView::Object(m), key) {
        Some(j) => unsigned_of(j),
        None => None,
    }
}

/// The arguments of a call as the tool gets them: without those that route it.
/// The older spelling of one is taken out only where the newer one says nothing.
pub open spec fn own_arguments(m: Map<Seq<char>, JsonView>) -> Map<Seq<char>, JsonView> {
    let a = m.remove("targetExecutor"@);
    let b = if taken_text(m, "targetExecutor"@) is Some {
        a
    } else {
        a.remove("target_executor"@)
    };
    let c = b.remove("toolTimeoutMs"@);
    let d = if taken_number(b, "toolTimeoutMs"@) is Some {
        c
    } else {
        c.remove("tool_timeout_ms"@)
    };
    d.remove("directory"@)
}

/// The request that a tool call becomes.
pub open spec fn call_request(id: JsonView, name: Seq<char>, arguments: JsonView) -> ExecutorRequestView {
    let m = fields_of(arguments);
    ExecutorRequestView {
        id,
        method: name,
        params: JsonView::Object(own_arguments(m)),
        directory: taken_text(m, "directory"@),
        executor: match taken_text(m, "targetExecutor"@) {
            Some(s) => Some(s),
            None => taken_text(m, "target_executor"@),
        },
        tool_timeout_ms: match taken_number(m, "toolTimeoutMs"@) {
            Some(n) => Some(n),
            None => taken_number(m, "tool_timeout_ms"@),
        },
    }
}

fn take_string(params: &mut Vec<(String, Json)>, key: &str) -> (r: Option<String>)
    ensures
        opt_text(r) == taken_text(entries_view(old(params)@), key@),
        entries_view(final(params)@) == entries_view(old(params)@).remove(key@),
{
    let mut entries: Vec<(String, Json)> = Vec::new();
    std::mem::swap(&mut entries, params);
    let object = Json::Object(entries);
    let found = match object.get_text(key) {
        Some(s) => Some(owned(s)),
        None => None,
    };
    if let Json::Object(entries) = object {
        *params = entries;
    }
    drop_entry(params, key);
    found
}

fn take_u64(params: &mut Vec<(String, Json)>, key: &str) -> (r: Option<u64>)
    ensures
        r == taken_number(entries_view(old(params)@), key@),
        entries_view(final(params)@) == entries_view(old(params)@).remove(key@),
{
    let mut entries: Vec<(String, Json)> = Vec::new();
    std::mem::swap(&mut entries, params);
    let object = Json::Object(entries);
    let found = match object.get(key) {
        Some(j) => j.as_u64(),
        None => None,
    };
    if let Json::Object(entries) = object {
        *params = entries;
    }
    drop_entry(params, key);
    found
}

proof fn lemma_routing_names_differ()
    ensures
        "targetExecutor"@ != "target_executor"@,
        "targetExecutor"@ != "toolTimeoutMs"@,
        "targetExecutor"@ != "tool_timeout_ms"@,
        "targetExecutor"@ != "directory"@,
        "target_executor"@ != "toolTimeoutMs"@,
        "target_executor"@ != "tool_timeout_ms"@,
        "target_executor"@ != "directory"@,
        "toolTimeoutMs"@ != "tool_timeout_ms"@,
        "toolTimeoutMs"@ != "directory"@,
        "tool_timeout_ms"@ != "directory"@,
{
    reveal_strlit("targetExecutor");
    reveal_strlit("target_executor");
    reveal_strlit("toolTimeoutMs");
    reveal_strlit("tool_timeout_ms");
    reveal_strlit("directory");
    assert("targetExecutor"@.len() == 14);
    assert("target_executor"@.len() == 15);
    assert("toolTimeoutMs"@.len() == 13);
    assert("tool_timeout_ms"@.len() == 15);
    assert("directory"@.len() == 9);
    assert("target_executor"@[1] != "tool_timeout_ms"@[1]);
}

/// Makes the request that a tool call becomes.
pub fn request_from_tool_call(id: Json, name: &str, arguments: Json) -> (r: ExecutorRequest)
    ensures
        r@ == call_request(id@, name@, arguments@),
{
    let ghost m = fields_of(arguments@);
    let mut params = match arguments {
        Json::Object(entries) => entries,
        _ => Vec::new(),
    };
    proof {
        lemma_routing_names_differ();
        assert(entries_view(params@) == m);
    }
    let executor = match take_string(&mut params, "targetExecutor") {
        Some(s) => Some(s),
        None => take_string(&mut params, "target_executor"),
    };
    let tool_timeout_ms = match take_u64(&mut params, "toolTimeoutMs") {
        Some(n) => Some(n),
        None => take_u64(&mut params, "tool_timeout_ms"),
    };
    let directory = take_string(&mut params, "directory");
    ExecutorRequest {
        id,
        method: owned(name),
        params: Json::Object(params),
        directory,
        executor,
        tool_timeout_ms,
    }
}

/// A tool never sees the arguments that route its call, and every other argument
/// reaches it as it was given.
pub proof fn lemma_routing_is_taken_out(id: JsonView, name: Seq<char>, arguments: JsonView)
    ensures
        ({
            let params = fields_of(call_request(id, name, arguments).params);
            &&& !params.dom().contains("targetExecutor"@)
            &&& !params.dom().contains("toolTimeoutMs"@)
            &&& !params.dom().contains("directory"@)
            &&& forall|key: Seq<char>|
                key != "targetExecutor"@ && key != "target_executor"@ && key != "toolTimeoutMs"@
                    && key != "tool_timeout_ms"@ && key != "directory"@ ==> #[trigger] field(
                    JsonView::Object(params),
                    key,
                ) == field(JsonView::Object(fields_of(arguments)), key)
        }),
{
    lemma_routing_names_differ();
}

/// What becomes of a message: nothing, an answer, or a tool call whose response
/// makes the answer.
#[derive(Debug)]
pub enum McpStep {
    Silent,
    Answer(Json),
    Call(ExecutorRequest),
}

pub enum McpStepView {
    Silent,
    Answer(JsonView),
    Call(ExecutorRequestView),
}

impl View for McpStep {
    type V = McpStepView;

    open spec fn view(&self) -> McpStepView {
        match self {
            McpStep::Silent => McpStepView::Silent,
            McpStep::Answer(j) => McpStepView::Answer(j@),
            McpStep::Call(q) => McpStepView::Call(q@),
        }
    }
}

pub open spec fn or_empty(j: Option<JsonView>) -> JsonView {
    match j {
        Some(j) => j,
        None => JsonView::Object(Map::empty()),
    }
}

/// What becomes of a message; one without an id asks for no answer.
pub open spec fn mcp_step(message: JsonView, version: Seq<char>) -> McpStepView {
    match field(message, "id"@) {
        None => McpStepView::Silent,
        Some(id) => {
            let method = match text_at(message, "method"@) {
                Some(s) => s,
                None => ""@,
            };
            if method == "initialize"@ {
                McpStepView::Answer(success(id, server_info(version)))
            } else if method == "ping"@ {
                McpStepView::Answer(success(id, JsonView::Object(Map::empty())))
            } else if method == "tools/list"@ {
                McpStepView::Answer(
                    success(
                        id,
                        JsonView::Object(
                            Map::empty().insert("tools"@, JsonView::Array(tool_list())),
                        ),
                    ),
                )
            } else if method == "tools/call"@ {
                let params = or_empty(field(message, "params"@));
                match text_at(params, "name"@) {
                    None => McpStepView::Answer(
                        success(id, tool_failure("tools/call params.name is required"@)),
                    ),
                    Some(name) => McpStepView::Call(
                        call_request(id, name, or_empty(field(params, "arguments"@))),
                    ),
                }
            } else {
                McpStepView::Answer(failure(id, (-32601) as i64, "method not found: "@ + method))
            }
        },
    }
}

fn copy_or_empty(j: Option<&Json>) -> (r: Json)
    ensures
        r@ == or_empty(
            match j {
                Some(j) => Some(j@),
                None => None,
            },
        ),
{
    match j {
        Some(j) => j.copy(),
        None => Json::empty(),
    }
}

/// What a line comes to: what its message does, or a complaint where it is none.
pub open spec fn line_step(line: Seq<char>, version: Seq<char>) -> McpStepView {
    match json_read(encode_utf8(line)) {
        Ok(message) => mcp_step(message, version),
        Err(fault) => McpStepView::Answer(
            failure(JsonView::Null, (-32700) as i64, "parse error: "@ + fault),
        ),
    }
}

/// Decides what to do with a line.
pub fn handle_mcp_line(line: &str, version: &str) -> (r: McpStep)
    ensures
        r@ == line_step(line@, version@),
{
    match parse_json(line.as_bytes()) {
        Ok(message) => handle_mcp_message(&message, version),
        Err(fault) => McpStep::Answer(parse_error(fault.message.as_str())),
    }
}

/// Decides what becomes of a message.
pub fn handle_mcp_message(message: &Json, version: &str) -> (r: McpStep)
    ensures
        r@ == mcp_step(message@, version@),
{
    let id = match message.get("id") {
        Some(id) => id.copy(),
        None => {
            return McpStep::Silent;
        },
    };
    let method = match message.get_text("method") {
        Some(s) => s,
        None => "",
    };
    if same_text(method, "initialize") {
        return McpStep::Answer(success_response(id, initialize_result(version)));
    }
    if same_text(method, "ping") {
        return McpStep::Answer(success_response(id, Json::empty()));
    }
    if same_text(method, "tools/list") {
        let mut e: Vec<(String, Json)> = Vec::new();
        put(&mut e, "tools", Json::Array(tools()));
        return McpStep::Answer(success_response(id, Json::Object(e)));
    }
    if same_text(method, "tools/call") {
        let params = copy_or_empty(message.get("params"));
        return match params.get_text("name") {
            None => McpStep::Answer(
                success_response(id, tool_error(owned("tools/call params.name is required"))),
            ),
            Some(name) => {
                let arguments = copy_or_empty(params.get("arguments"));
                McpStep::Call(request_from_tool_call(id, name, arguments))
            },
        };
    }
    let mut m = owned("method not found: ");
    m.append(method);
    McpStep::Answer(error_response(id, -32601, m))
}

/// A message is answered if and only if it has an id, and the answer to one that
/// is no tool call has that id.
pub proof fn lemma_answers_have_the_id(message: JsonView, version: Seq<char>)
    ensures
        mcp_step(message, version) is Silent <==> field(message, "id"@) is None,
        mcp_step(message, version) matches McpStepView::Answer(j) ==> field(j, "id"@) == field(
            message,
            "id"@,
        ),
        mcp_step(message, version) matches McpStepView::Call(q) ==> Some(q.id) == field(
            message,
            "id"@,
        ),
{
    reveal_strlit("jsonrpc");
    reveal_strlit("id");
    reveal_strlit("result");
    reveal_strlit("error");
    assert("id"@.len() == 2);
    assert("result"@.len() == 6);
    assert("error"@.len() == 5);
}

/// Whether a tool as it is listed has a name that an executor or the caller
/// answers to.
pub open spec fn is_known(tool: JsonView) -> bool {
    match text_at(tool, "name"@) {
        Some(name) => tool_named(name) is Some || answers_itself(name),
        None => false,
    }
}

proof fn lemma_tool_names()
    ensures
        forall|
            name: Seq<char>,
            description: Seq<char>,
            required: Seq<JsonView>,
            props: Map<Seq<char>, JsonView>,
            routing: Routing,
        |
            text_at(
                #[trigger] tool_json(name, description, required, props, routing),
                "name"@,
            ) == Some(name),
{
    reveal_strlit("name");
    reveal_strlit("description");
    reveal_strlit("inputSchema");
    assert("name"@.len() == 4);
    assert("description"@.len() == 11);
    assert("inputSchema"@.len() == 11);
}

/// Every tool in the list is one that an executor or the caller answers to, but
/// for `request_reload`.
pub proof fn lemma_listed_tools_are_known()
    ensures
        forall|i: int|
            0 <= i < tool_list().len() && tool_list()[i] != request_reload_tool() ==> is_known(
                #[trigger] tool_list()[i],
            ),
{
    lemma_tool_names();
    assert(is_known(read_tool()) && is_known(glob_tool()) && is_known(stat_tool()));
    assert(is_known(file_action_tool()) && is_known(exbash_tool()) && is_known(rg_tool()));
    assert(is_known(set_default_shell_tool()) && is_known(list_shells_tool()));
    assert(is_known(file_transfer_tool()) && is_known(list_executor_tool()));
    assert(is_known(connect_tool()) && is_known(set_default_tool()));
}

} // verus!
