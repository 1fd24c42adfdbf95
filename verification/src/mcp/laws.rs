//! What the server tells of itself and of its tools, and what its answers hold.

use crate::json::value::json_read;
use crate::json::{field, text_at, JsonView, NumberView};
use crate::mcp::{
    call_request, connect_tool, exbash_tool, failure, file_action_tool, file_transfer_tool,
    glob_tool, line_step, list_executor_tool, list_shells_tool, mcp_step, read_tool,
    request_reload_tool, rg_tool, set_default_shell_tool, set_default_tool, stat_tool, success,
    tool_call_result, tool_list, McpStepView,
};
use crate::protocol::ExecutorResponseView;
use vstd::prelude::*;
use vstd::utf8::encode_utf8;

verus! {

proof fn lemma_schema_fields_differ()
    ensures
        "type"@.len() == 4,
        "text"@.len() == 4,
        "name"@.len() == 4,
        "description"@.len() == 11,
        "inputSchema"@.len() == 11,
        "properties"@.len() == 10,
        "required"@.len() == 8,
        "type"@[0] == 't',
        "type"@[1] == 'y',
        "text"@[0] == 't',
        "text"@[1] == 'e',
        "name"@[0] == 'n',
        "description"@[0] == 'd',
        "inputSchema"@[0] == 'i',
{
    reveal_strlit("type");
    reveal_strlit("text");
    reveal_strlit("name");
    reveal_strlit("description");
    reveal_strlit("inputSchema");
    reveal_strlit("properties");
    reveal_strlit("required");
}

proof fn lemma_argument_names_differ()
    ensures
        "filePath"@.len() == 8,
        "offset"@.len() == 6,
        "limit"@.len() == 5,
        "hashCheckMode"@.len() == 13,
        "pattern"@.len() == 7,
        "path"@.len() == 4,
        "mode"@.len() == 4,
        "newFilePath"@.len() == 11,
        "content"@.len() == 7,
        "patchText"@.len() == 9,
        "patchMode"@.len() == 9,
        "hashCode"@.len() == 8,
        "command"@.len() == 7,
        "shell"@.len() == 5,
        "description"@.len() == 11,
        "workdir"@.len() == 7,
        "timeout"@.len() == 7,
        "read_timeout"@.len() == 12,
        "asyncID"@.len() == 7,
        "text"@.len() == 4,
        "showRawPretty"@.len() == 13,
        "root"@.len() == 4,
        "globs"@.len() == 5,
        "case_sensitive"@.len() == 14,
        "max_count"@.len() == 9,
        "localPath"@.len() == 9,
        "targetPath"@.len() == 10,
        "overwrite"@.len() == 9,
        "id"@.len() == 2,
        "url"@.len() == 3,
        "system"@.len() == 6,
        "device"@.len() == 6,
        "labels"@.len() == 6,
        "targetExecutor"@.len() == 14,
        "directory"@.len() == 9,
        "filePath"@[0] == 'f',
        "offset"@[0] == 'o',
        "limit"@[0] == 'l',
        "hashCheckMode"@[0] == 'h',
        "pattern"@[0] == 'p',
        "path"@[0] == 'p',
        "mode"@[0] == 'm',
        "newFilePath"@[0] == 'n',
        "content"@[0] == 'c',
        "content"@[2] == 'n',
        "patchText"@[0] == 'p',
        "patchText"@[5] == 'T',
        "patchMode"@[0] == 'p',
        "patchMode"@[5] == 'M',
        "hashCode"@[0] == 'h',
        "command"@[0] == 'c',
        "command"@[2] == 'm',
        "shell"@[0] == 's',
        "description"@[0] == 'd',
        "workdir"@[0] == 'w',
        "timeout"@[0] == 't',
        "asyncID"@[0] == 'a',
        "text"@[0] == 't',
        "showRawPretty"@[0] == 's',
        "root"@[0] == 'r',
        "globs"@[0] == 'g',
        "case_sensitive"@[0] == 'c',
        "max_count"@[0] == 'm',
        "localPath"@[0] == 'l',
        "overwrite"@[0] == 'o',
        "system"@[0] == 's',
        "device"@[0] == 'd',
        "labels"@[0] == 'l',
        "targetExecutor"@[0] == 't',
        "directory"@[0] == 'd',
{
    reveal_strlit("filePath");
    reveal_strlit("offset");
    reveal_strlit("limit");
    reveal_strlit("hashCheckMode");
    reveal_strlit("pattern");
    reveal_strlit("path");
    reveal_strlit("mode");
    reveal_strlit("newFilePath");
    reveal_strlit("content");
    reveal_strlit("patchText");
    reveal_strlit("patchMode");
    reveal_strlit("hashCode");
    reveal_strlit("command");
    reveal_strlit("shell");
    reveal_strlit("description");
    reveal_strlit("workdir");
    reveal_strlit("timeout");
    reveal_strlit("read_timeout");
    reveal_strlit("asyncID");
    reveal_strlit("text");
    reveal_strlit("showRawPretty");
    reveal_strlit("root");
    reveal_strlit("globs");
    reveal_strlit("case_sensitive");
    reveal_strlit("max_count");
    reveal_strlit("localPath");
    reveal_strlit("targetPath");
    reveal_strlit("overwrite");
    reveal_strlit("id");
    reveal_strlit("url");
    reveal_strlit("system");
    reveal_strlit("device");
    reveal_strlit("labels");
    reveal_strlit("targetExecutor");
    reveal_strlit("directory");
}

/// The type that a tool as it is listed gives to an argument.
pub open spec fn argument_type(tool: JsonView, key: Seq<char>) -> Option<Seq<char>> {
    match field(tool, "inputSchema"@) {
        Some(schema) => match field(schema, "properties"@) {
            Some(props) => match field(props, key) {
                Some(p) => text_at(p, "type"@),
                None => None,
            },
            None => None,
        },
        None => None,
    }
}

/// The arguments that a tool as it is listed cannot do without.
pub open spec fn required_of(tool: JsonView) -> Seq<Seq<char>> {
    match field(tool, "inputSchema"@) {
        Some(schema) => match field(schema, "required"@) {
            Some(JsonView::Array(items)) => Seq::new(
                items.len(),
                |i: int|
                    match items[i] {
                        JsonView::Text(s) => s,
                        _ => seq![],
                    },
            ),
            _ => seq![],
        },
        None => seq![],
    }
}

/// Whether a tool is listed under a name, takes exactly some arguments of some types, and
/// cannot do without some of them.
pub open spec fn is_listed_as(
    tool: JsonView,
    name: Seq<char>,
    required: Seq<Seq<char>>,
    arguments: Map<Seq<char>, Seq<char>>,
) -> bool {
    &&& text_at(tool, "name"@) == Some(name)
    &&& field(tool, "inputSchema"@) matches Some(schema)
    &&& text_at(schema, "type"@) == Some("object"@)
    &&& required_of(tool) == required
    &&& forall|key: Seq<char>| #[trigger]
        argument_type(tool, key) == (if arguments.dom().contains(key) {
            Some(arguments[key])
        } else {
            None
        })
}

/// Reading: the tool is listed with its name, the arguments that it takes,
/// their types, and those that it cannot do without.
#[verifier::spinoff_prover]
pub proof fn lemma_read_tool_is_listed()
    ensures
        tool_list().len() == 13,
        is_listed_as(
            tool_list()[0],
            "read"@,
            seq!["filePath"@],
            map![
                "filePath"@ => "string"@,
                "offset"@ => "number"@,
                "limit"@ => "number"@,
                "hashCheckMode"@ => "boolean"@,
                "targetExecutor"@ => "string"@,
                "directory"@ => "string"@,
            ],
        ),
{
    lemma_argument_names_differ();
    lemma_schema_fields_differ();
    assert(required_of(read_tool()) =~= seq!["filePath"@]);
}

/// Finding files: the tool is listed with its name, the arguments that it takes,
/// their types, and those that it cannot do without.
#[verifier::spinoff_prover]
pub proof fn lemma_glob_tool_is_listed()
    ensures
        tool_list().len() == 13,
        is_listed_as(
            tool_list()[1],
            "glob"@,
            seq!["pattern"@],
            map![
                "pattern"@ => "string"@,
                "path"@ => "string"@,
                "targetExecutor"@ => "string"@,
                "directory"@ => "string"@,
            ],
        ),
{
    lemma_argument_names_differ();
    lemma_schema_fields_differ();
    assert(required_of(glob_tool()) =~= seq!["pattern"@]);
}

/// Telling of a file: the tool is listed with its name, the arguments that it takes,
/// their types, and those that it cannot do without.
#[verifier::spinoff_prover]
pub proof fn lemma_stat_tool_is_listed()
    ensures
        tool_list().len() == 13,
        is_listed_as(
            tool_list()[2],
            "stat"@,
            seq!["filePath"@],
            map![
                "filePath"@ => "string"@,
                "targetExecutor"@ => "string"@,
                "directory"@ => "string"@,
            ],
        ),
{
    lemma_argument_names_differ();
    lemma_schema_fields_differ();
    assert(required_of(stat_tool()) =~= seq!["filePath"@]);
}

/// Changing files: the tool is listed with its name, the arguments that it takes,
/// their types, and those that it cannot do without.
#[verifier::spinoff_prover]
pub proof fn lemma_file_action_tool_is_listed()
    ensures
        tool_list().len() == 13,
        is_listed_as(
            tool_list()[3],
            "FileAction"@,
            seq!["mode"@, "filePath"@],
            map![
                "mode"@ => "string"@,
                "filePath"@ => "string"@,
                "newFilePath"@ => "string"@,
                "content"@ => "string"@,
                "patchText"@ => "string"@,
                "patchMode"@ => "string"@,
                "hashCheckMode"@ => "boolean"@,
                "hashCode"@ => "string"@,
                "targetExecutor"@ => "string"@,
                "directory"@ => "string"@,
            ],
        ),
{
    lemma_argument_names_differ();
    lemma_schema_fields_differ();
    assert(required_of(file_action_tool()) =~= seq!["mode"@, "filePath"@]);
}

/// Running commands: the tool is listed with its name, the arguments that it takes,
/// their types, and those that it cannot do without.
#[verifier::spinoff_prover]
pub proof fn lemma_exbash_tool_is_listed()
    ensures
        tool_list().len() == 13,
        is_listed_as(
            tool_list()[4],
            "exbash"@,
            seq!["mode"@],
            map![
                "mode"@ => "string"@,
                "command"@ => "string"@,
                "shell"@ => "string"@,
                "description"@ => "string"@,
                "workdir"@ => "string"@,
                "timeout"@ => "number"@,
                "read_timeout"@ => "number"@,
                "asyncID"@ => "string"@,
                "text"@ => "string"@,
                "filePath"@ => "string"@,
                "showRawPretty"@ => "boolean"@,
                "targetExecutor"@ => "string"@,
                "directory"@ => "string"@,
            ],
        ),
{
    lemma_argument_names_differ();
    lemma_schema_fields_differ();
    assert(required_of(exbash_tool()) =~= seq!["mode"@]);
}

/// Searching: the tool is listed with its name, the arguments that it takes,
/// their types, and those that it cannot do without.
#[verifier::spinoff_prover]
pub proof fn lemma_rg_tool_is_listed()
    ensures
        tool_list().len() == 13,
        is_listed_as(
            tool_list()[5],
            "rg"@,
            seq!["pattern"@],
            map![
                "pattern"@ => "string"@,
                "root"@ => "string"@,
                "path"@ => "string"@,
                "globs"@ => "array"@,
                "case_sensitive"@ => "boolean"@,
                "max_count"@ => "number"@,
                "targetExecutor"@ => "string"@,
                "directory"@ => "string"@,
            ],
        ),
{
    lemma_argument_names_differ();
    lemma_schema_fields_differ();
    assert(required_of(rg_tool()) =~= seq!["pattern"@]);
}

/// Choosing a shell: the tool is listed with its name, the arguments that it takes,
/// their types, and those that it cannot do without.
#[verifier::spinoff_prover]
pub proof fn lemma_set_default_shell_tool_is_listed()
    ensures
        tool_list().len() == 13,
        is_listed_as(
            tool_list()[6],
            "set_default_shell"@,
            seq!["shell"@],
            map![
                "shell"@ => "string"@,
                "targetExecutor"@ => "string"@,
                "directory"@ => "string"@,
            ],
        ),
{
    lemma_argument_names_differ();
    lemma_schema_fields_differ();
    assert(required_of(set_default_shell_tool()) =~= seq!["shell"@]);
}

/// Listing shells: the tool is listed with its name, the arguments that it takes,
/// their types, and those that it cannot do without.
#[verifier::spinoff_prover]
pub proof fn lemma_list_shells_tool_is_listed()
    ensures
        tool_list().len() == 13,
        is_listed_as(
            tool_list()[7],
            "list_shells"@,
            seq![],
            map![
                "targetExecutor"@ => "string"@,
                "directory"@ => "string"@,
            ],
        ),
{
    lemma_argument_names_differ();
    lemma_schema_fields_differ();
    assert(required_of(list_shells_tool()) =~= seq![]);
}

/// Asking for new settings: the tool is listed with its name, the arguments that it takes,
/// their types, and those that it cannot do without.
#[verifier::spinoff_prover]
pub proof fn lemma_request_reload_tool_is_listed()
    ensures
        tool_list().len() == 13,
        is_listed_as(
            tool_list()[8],
            "request_reload"@,
            seq![],
            map![
                "targetExecutor"@ => "string"@,
            ],
        ),
{
    lemma_argument_names_differ();
    lemma_schema_fields_differ();
    assert(required_of(request_reload_tool()) =~= seq![]);
}

/// Moving a file: the tool is listed with its name, the arguments that it takes,
/// their types, and those that it cannot do without.
#[verifier::spinoff_prover]
pub proof fn lemma_file_transfer_tool_is_listed()
    ensures
        tool_list().len() == 13,
        is_listed_as(
            tool_list()[9],
            "file_transfer"@,
            seq!["mode"@, "localPath"@, "targetPath"@],
            map![
                "mode"@ => "string"@,
                "localPath"@ => "string"@,
                "targetPath"@ => "string"@,
                "overwrite"@ => "boolean"@,
                "targetExecutor"@ => "string"@,
            ],
        ),
{
    lemma_argument_names_differ();
    lemma_schema_fields_differ();
    assert(required_of(file_transfer_tool()) =~= seq!["mode"@, "localPath"@, "targetPath"@]);
}

/// Listing executors: the tool is listed with its name, the arguments that it takes,
/// their types, and those that it cannot do without.
#[verifier::spinoff_prover]
pub proof fn lemma_list_executor_tool_is_listed()
    ensures
        tool_list().len() == 13,
        is_listed_as(
            tool_list()[10],
            "list_executor"@,
            seq![],
            Map::empty(),
        ),
{
    lemma_argument_names_differ();
    lemma_schema_fields_differ();
    assert(required_of(list_executor_tool()) =~= seq![]);
}

/// Connecting an executor: the tool is listed with its name, the arguments that it takes,
/// their types, and those that it cannot do without.
#[verifier::spinoff_prover]
pub proof fn lemma_connect_tool_is_listed()
    ensures
        tool_list().len() == 13,
        is_listed_as(
            tool_list()[11],
            "connect_to_executor"@,
            seq!["id"@, "url"@],
            map![
                "id"@ => "string"@,
                "url"@ => "string"@,
                "system"@ => "string"@,
                "device"@ => "string"@,
                "labels"@ => "object"@,
            ],
        ),
{
    lemma_argument_names_differ();
    lemma_schema_fields_differ();
    assert(required_of(connect_tool()) =~= seq!["id"@, "url"@]);
}

/// Choosing an executor: the tool is listed with its name, the arguments that it takes,
/// their types, and those that it cannot do without.
#[verifier::spinoff_prover]
pub proof fn lemma_set_default_tool_is_listed()
    ensures
        tool_list().len() == 13,
        is_listed_as(
            tool_list()[12],
            "set_default_executor"@,
            seq!["id"@],
            map![
                "id"@ => "string"@,
            ],
        ),
{
    lemma_argument_names_differ();
    lemma_schema_fields_differ();
    assert(required_of(set_default_tool()) =~= seq!["id"@]);
}

proof fn lemma_answer_fields_differ()
    ensures
        "jsonrpc"@.len() == 7,
        "id"@.len() == 2,
        "result"@.len() == 6,
        "error"@.len() == 5,
        "code"@.len() == 4,
        "message"@.len() == 7,
        "content"@.len() == 7,
        "isError"@.len() == 7,
        "structuredContent"@.len() == 17,
        "tools"@.len() == 5,
        "protocolVersion"@.len() == 15,
        "capabilities"@.len() == 12,
        "serverInfo"@.len() == 10,
        "name"@.len() == 4,
        "version"@.len() == 7,
        "type"@.len() == 4,
        "text"@.len() == 4,
        "jsonrpc"@[0] == 'j',
        "error"@[0] == 'e',
        "code"@[0] == 'c',
        "message"@[0] == 'm',
        "content"@[0] == 'c',
        "isError"@[0] == 'i',
        "tools"@[0] == 't',
        "name"@[0] == 'n',
        "version"@[0] == 'v',
        "type"@[0] == 't',
        "type"@[1] == 'y',
        "text"@[0] == 't',
        "text"@[1] == 'e',
{
    reveal_strlit("jsonrpc");
    reveal_strlit("id");
    reveal_strlit("result");
    reveal_strlit("error");
    reveal_strlit("code");
    reveal_strlit("message");
    reveal_strlit("content");
    reveal_strlit("isError");
    reveal_strlit("structuredContent");
    reveal_strlit("tools");
    reveal_strlit("protocolVersion");
    reveal_strlit("capabilities");
    reveal_strlit("serverInfo");
    reveal_strlit("name");
    reveal_strlit("version");
    reveal_strlit("type");
    reveal_strlit("text");
}

/// An answer has the id of the message and brings its result, or a code and the reason.
pub proof fn lemma_answers_bring_results(
    id: JsonView,
    result: JsonView,
    code: i64,
    message: Seq<char>,
)
    ensures
        field(success(id, result), "id"@) == Some(id),
        field(success(id, result), "result"@) == Some(result),
        field(success(id, result), "error"@) is None,
        text_at(success(id, result), "jsonrpc"@) == Some("2.0"@),
        field(failure(id, code, message), "id"@) == Some(id),
        field(failure(id, code, message), "result"@) is None,
        text_at(failure(id, code, message), "jsonrpc"@) == Some("2.0"@),
        field(failure(id, code, message), "error"@) matches Some(e) && field(e, "code"@) == Some(
            JsonView::Number(NumberView::Negative(code)),
        ) && text_at(e, "message"@) == Some(message),
{
    lemma_answer_fields_differ();
}

/// The text that a tool call returns.
pub open spec fn shown_text(result: JsonView) -> Option<Seq<char>> {
    match field(result, "content"@) {
        Some(JsonView::Array(items)) => if items.len() == 1 && text_at(items[0], "type"@) == Some(
            "text"@,
        ) {
            text_at(items[0], "text"@)
        } else {
            None
        },
        _ => None,
    }
}

/// A tool call that went well returns the whole result, and as text its output where that
/// is one; a call that went wrong returns the reason.
pub proof fn lemma_call_is_returned(response: ExecutorResponseView, shown: Seq<char>)
    ensures
        ({
            let r = tool_call_result(response, shown);
            let result: JsonView = match response.result {
                Some(j) => j,
                None => JsonView::Null,
            };
            &&& field(r, "isError"@) == Some(JsonView::Bool(!response.ok))
            &&& response.ok ==> field(r, "structuredContent"@) == Some(result)
            &&& response.ok && text_at(result, "output"@) is Some ==> shown_text(r) == text_at(
                result,
                "output"@,
            )
            &&& response.ok && text_at(result, "output"@) is None ==> shown_text(r) == Some(shown)
            &&& !response.ok && response.error is Some ==> shown_text(r) == response.error
            &&& !response.ok && response.error is None ==> shown_text(r) == Some(
                "tool call failed"@,
            )
        }),
{
    lemma_answer_fields_differ();
}

proof fn lemma_methods_differ()
    ensures
        "initialize"@.len() == 10,
        "ping"@.len() == 4,
        "tools/list"@.len() == 10,
        "tools/call"@.len() == 10,
        ""@.len() == 0,
        "initialize"@[0] == 'i',
        "tools/list"@[0] == 't',
        "tools/list"@[6] == 'l',
        "tools/call"@[0] == 't',
        "tools/call"@[6] == 'c',
{
    reveal_strlit("initialize");
    reveal_strlit("ping");
    reveal_strlit("tools/list");
    reveal_strlit("tools/call");
    reveal_strlit("");
}

/// A message that asks for an answer gets what its method stands for: what the server is,
/// nothing, its tools, a call, or the word that there is no such method.
pub proof fn lemma_methods_are_answered(message: JsonView, version: Seq<char>)
    requires
        field(message, "id"@) is Some,
    ensures
        ({
            let step = mcp_step(message, version);
            let method = text_at(message, "method"@);
            let params = field(message, "params"@);
            let name: Option<Seq<char>> = match params {
                Some(p) => text_at(p, "name"@),
                None => None,
            };
            &&& step is Call <==> method == Some("tools/call"@) && name is Some
            &&& step matches McpStepView::Call(q) ==> Some(q.method) == name && Some(q.id) == field(
                message,
                "id"@,
            )
            &&& method == Some("initialize"@) ==> (step matches McpStepView::Answer(j) && (field(
                j,
                "result"@,
            ) matches Some(r) && text_at(r, "protocolVersion"@) == Some("2024-11-05"@) && (field(
                r,
                "serverInfo"@,
            ) matches Some(i) && text_at(i, "name"@) == Some("remote-caller-mcp"@) && text_at(
                i,
                "version"@,
            ) == Some(version))))
            &&& method == Some("ping"@) ==> (step matches McpStepView::Answer(j) && field(
                j,
                "result"@,
            ) == Some(JsonView::Object(Map::empty())))
            &&& method == Some("tools/list"@) ==> (step matches McpStepView::Answer(j) && (field(
                j,
                "result"@,
            ) matches Some(r) && field(r, "tools"@) == Some(JsonView::Array(tool_list()))))
            &&& method == Some("tools/call"@) && name is None ==> (step matches McpStepView::Answer(j)
                && (field(j, "result"@) matches Some(r) && field(r, "isError"@) == Some(
                JsonView::Bool(true),
            )))
            &&& method is None || (method->Some_0 != "initialize"@ && method->Some_0 != "ping"@
                && method->Some_0 != "tools/list"@ && method->Some_0 != "tools/call"@) ==> (
            step matches McpStepView::Answer(j) && (field(j, "error"@) matches Some(e) && field(
                e,
                "code"@,
            ) == Some(JsonView::Number(NumberView::Negative((-32601) as i64)))))
        }),
{
    lemma_answer_fields_differ();
    lemma_methods_differ();
}

proof fn lemma_routing_differs()
    ensures
        "targetExecutor"@.len() == 14,
        "target_executor"@.len() == 15,
        "toolTimeoutMs"@.len() == 13,
        "tool_timeout_ms"@.len() == 15,
        "directory"@.len() == 9,
        "target_executor"@[1] == 'a',
        "tool_timeout_ms"@[1] == 'o',
{
    reveal_strlit("targetExecutor");
    reveal_strlit("target_executor");
    reveal_strlit("toolTimeoutMs");
    reveal_strlit("tool_timeout_ms");
    reveal_strlit("directory");
}

/// A call goes where its arguments send it: to the executor, into the directory and with
/// the limit that they name, in either spelling, of which the newer one counts first.
pub proof fn lemma_call_is_routed(id: JsonView, name: Seq<char>, m: Map<Seq<char>, JsonView>)
    ensures
        ({
            let j = JsonView::Object(m);
            let q = call_request(id, name, j);
            &&& q.id == id
            &&& q.method == name
            &&& q.directory == text_at(j, "directory"@)
            &&& text_at(j, "targetExecutor"@) is Some ==> q.executor == text_at(
                j,
                "targetExecutor"@,
            )
            &&& text_at(j, "targetExecutor"@) is None ==> q.executor == text_at(
                j,
                "target_executor"@,
            )
            &&& field(j, "toolTimeoutMs"@) matches Some(JsonView::Number(NumberView::Unsigned(n)))
                ==> q.tool_timeout_ms == Some(n)
            &&& field(j, "toolTimeoutMs"@) is None ==> {
                &&& field(j, "tool_timeout_ms"@) matches Some(
                    JsonView::Number(NumberView::Unsigned(n)),
                ) ==> q.tool_timeout_ms == Some(n)
                &&& field(j, "tool_timeout_ms"@) is None ==> q.tool_timeout_ms is None
            }
        }),
{
    lemma_routing_differs();
}

/// A call hands its tool every argument that routes nothing.
pub proof fn lemma_arguments_reach_the_tool(
    message: JsonView,
    version: Seq<char>,
    key: Seq<char>,
)
    requires
        mcp_step(message, version) is Call,
        key != "targetExecutor"@,
        key != "target_executor"@,
        key != "toolTimeoutMs"@,
        key != "tool_timeout_ms"@,
        key != "directory"@,
    ensures
        ({
            let q = mcp_step(message, version)->Call_0;
            let params = field(message, "params"@)->Some_0;
            field(q.params, key) == match field(params, "arguments"@) {
                Some(arguments) => field(arguments, key),
                None => None,
            }
        }),
{
    lemma_methods_differ();
}

/// A line that holds a message does what the message does, and one that holds none is
/// answered with what is wrong with it.
pub proof fn lemma_lines_hold_messages(line: Seq<char>, version: Seq<char>)
    ensures
        json_read(encode_utf8(line)) matches Ok(message) ==> line_step(line, version) == mcp_step(
            message,
            version,
        ),
        json_read(encode_utf8(line)) matches Err(fault) ==> (line_step(
            line,
            version,
        ) matches McpStepView::Answer(j) && field(j, "id"@) == Some(JsonView::Null) && (field(
            j,
            "error"@,
        ) matches Some(e) && field(e, "code"@) == Some(
            JsonView::Number(NumberView::Negative((-32700) as i64)),
        ) && text_at(e, "message"@) == Some("parse error: "@ + fault))),
{
    lemma_answer_fields_differ();
}

} // verus!
