//! The executor: it takes requests, runs the tools that they name and answers.
//!
//! Running a tool, and giving up on it in time, is up to the program around it.

pub mod laws;

use crate::caller::{
    connected, labels_json, labels_value, text_json, text_value, ConnectView, EndpointView,
};
use crate::error::Error;
use crate::json::{field, put, text_at, Json, JsonView, Number, NumberView};
use crate::protocol::{
    err_response, ok_response, opt_text, output_of, result_value, tool_output, ExecutorInfo,
    ExecutorInfoView, ExecutorRequest, ExecutorRequestView, ExecutorResponse, ExecutorResponseView,
    ToolResult, ToolResultView,
};
use crate::protocol::copy_opt;
use crate::text::number::{append_dec, dec};
use crate::text::split::{has_text, position_of, trim};
use crate::text::{chars_of, owned, same_text};
use vstd::prelude::*;

verus! {

/// How long a tool may take where a request does not say.
pub const DEFAULT_TOOL_TIMEOUT_MS: u64 = 5_000;

/// The longest that a request may allow a tool.
pub const MAX_TOOL_TIMEOUT_MS: u64 = 600_000;

/// How long a tool may take.
pub open spec fn tool_limit(requested: Option<u64>) -> u64 {
    match requested {
        None => DEFAULT_TOOL_TIMEOUT_MS,
        Some(ms) => if ms < MAX_TOOL_TIMEOUT_MS {
            ms
        } else {
            MAX_TOOL_TIMEOUT_MS
        },
    }
}

pub fn effective_tool_timeout_ms(requested: Option<u64>) -> (r: u64)
    ensures
        r == tool_limit(requested),
        r <= MAX_TOOL_TIMEOUT_MS,
{
    match requested {
        None => DEFAULT_TOOL_TIMEOUT_MS,
        Some(ms) => if ms < MAX_TOOL_TIMEOUT_MS {
            ms
        } else {
            MAX_TOOL_TIMEOUT_MS
        },
    }
}

/// Whether a tool takes its time limit as a parameter.
pub open spec fn takes_limit(method: Seq<char>) -> bool {
    method == "rg"@ || method == "glob"@
}

pub fn is_soft_timeout_method(method: &str) -> (r: bool)
    ensures
        r == takes_limit(method@),
{
    same_text(method, "rg") || same_text(method, "glob")
}

/// The parameters of a tool that takes its limit as one: the limit of the request
/// counts where they name none.
pub open spec fn limited_params(method: Seq<char>, params: JsonView, requested: Option<u64>) -> JsonView {
    match params {
        JsonView::Object(m) => if takes_limit(method) && !m.dom().contains("timeout"@) {
            JsonView::Object(
                m.insert(
                    "timeout"@,
                    JsonView::Number(NumberView::Unsigned(tool_limit(requested))),
                ),
            )
        } else {
            params
        },
        _ => params,
    }
}

pub fn apply_soft_timeout_param(method: &str, params: Json, requested: Option<u64>) -> (r: Json)
    ensures
        r@ == limited_params(method@, params@, requested),
{
    if !is_soft_timeout_method(method) || params.get("timeout").is_some() {
        return params;
    }
    match params {
        Json::Object(entries) => {
            let mut entries = entries;
            put(&mut entries, "timeout", Json::count(effective_tool_timeout_ms(requested)));
            Json::Object(entries)
        },
        other => other,
    }
}

/// Whether the program leaves a tool to end by itself: one that runs commands has times
/// of its own, and a search returns what it has once its time is up.
pub open spec fn ends_itself(method: Seq<char>) -> bool {
    method == "exbash"@ || method == "rg"@
}

/// The tools of an executor.
#[derive(Clone, Copy, Debug, PartialEq, Eq, Structural)]
pub enum Tool {
    Exbash,
    Read,
    Stat,
    FileAction,
    Glob,
    SetDefaultShell,
    ListShells,
    Rg,
    ExecutorInfo,
}

/// The tool that a name means.
pub open spec fn tool_named(method: Seq<char>) -> Option<Tool> {
    if method == "exbash"@ {
        Some(Tool::Exbash)
    } else if method == "read"@ {
        Some(Tool::Read)
    } else if method == "stat"@ {
        Some(Tool::Stat)
    } else if method == "FileAction"@ {
        Some(Tool::FileAction)
    } else if method == "glob"@ {
        Some(Tool::Glob)
    } else if method == "set_default_shell"@ {
        Some(Tool::SetDefaultShell)
    } else if method == "list_shells"@ {
        Some(Tool::ListShells)
    } else if method == "rg"@ {
        Some(Tool::Rg)
    } else if method == "_executor_info"@ {
        Some(Tool::ExecutorInfo)
    } else {
        None
    }
}

/// Finds the tool that a name means.
pub fn dispatch_tool(method: &str) -> (r: Result<Tool, Error>)
    ensures
        match tool_named(method@) {
            Some(tool) => r matches Ok(t) && t == tool,
            None => r matches Err(e) && e@ == "unknown method: "@ + method@,
        },
{
    if same_text(method, "exbash") {
        Ok(Tool::Exbash)
    } else if same_text(method, "read") {
        Ok(Tool::Read)
    } else if same_text(method, "stat") {
        Ok(Tool::Stat)
    } else if same_text(method, "FileAction") {
        Ok(Tool::FileAction)
    } else if same_text(method, "glob") {
        Ok(Tool::Glob)
    } else if same_text(method, "set_default_shell") {
        Ok(Tool::SetDefaultShell)
    } else if same_text(method, "list_shells") {
        Ok(Tool::ListShells)
    } else if same_text(method, "rg") {
        Ok(Tool::Rg)
    } else if same_text(method, "_executor_info") {
        Ok(Tool::ExecutorInfo)
    } else {
        let mut m = owned("unknown method: ");
        m.append(method);
        Err(Error::new(m))
    }
}

/// A tool call that is to be run: the tool, its parameters, the directory it
/// works in where the request names one, and how long the program waits for it
/// where it does.
#[derive(Debug)]
pub struct ToolCall {
    pub tool: Tool,
    pub params: Json,
    pub directory: Option<String>,
    pub limit_ms: Option<u64>,
}

#[verifier::ext_equal]
pub struct ToolCallView {
    pub tool: Tool,
    pub params: JsonView,
    pub directory: Option<Seq<char>>,
    pub limit_ms: Option<u64>,
}

impl View for ToolCall {
    type V = ToolCallView;

    open spec fn view(&self) -> ToolCallView {
        ToolCallView {
            tool: self.tool,
            params: self.params@,
            directory: opt_text(self.directory),
            limit_ms: self.limit_ms,
        }
    }
}

pub open spec fn call_for(q: ExecutorRequestView) -> Result<ToolCallView, Seq<char>> {
    match tool_named(q.method) {
        None => Err("unknown method: "@ + q.method),
        Some(tool) => Ok(
            ToolCallView {
                tool,
                params: limited_params(q.method, q.params, q.tool_timeout_ms),
                directory: q.directory,
                limit_ms: if ends_itself(q.method) {
                    None
                } else {
                    Some(tool_limit(q.tool_timeout_ms))
                },
            },
        ),
    }
}

/// An executor, by what it says of itself.
#[derive(Debug)]
pub struct Executor {
    info: ExecutorInfo,
}

impl View for Executor {
    type V = ExecutorInfoView;

    closed spec fn view(&self) -> ExecutorInfoView {
        self.info@
    }
}

/// What an executor tells of itself.
pub open spec fn info_json(info: ExecutorInfoView, version: Seq<char>) -> JsonView {
    JsonView::Object(
        Map::empty().insert("id"@, JsonView::Text(info.id)).insert("system"@, text_json(info.system)).insert(
            "device"@,
            text_json(info.device),
        ).insert("labels"@, labels_json(info.labels)).insert(
            "protocol"@,
            JsonView::Text("remote-executor"@),
        ).insert("version"@, JsonView::Text(version)).insert(
            "capabilities"@,
            JsonView::Object(Map::empty().insert("fileTransfer"@, JsonView::Bool(true))),
        ).insert("fileTransferPath"@, JsonView::Text("/re-file/v1"@)),
    )
}

pub open spec fn info_result(info: ExecutorInfoView, version: Seq<char>) -> ToolResultView {
    ToolResultView {
        metadata: info_json(info, version),
        output: output_of(""@, info.id, ""@),
    }
}

/// The response to a tool call.
pub open spec fn tool_response(
    id: JsonView,
    executor: Seq<char>,
    result: Result<ToolResultView, Seq<char>>,
) -> ExecutorResponseView {
    match result {
        Ok(t) => ok_response(id, Some(executor), result_value(t)),
        Err(m) => err_response(id, Some(executor), m),
    }
}

impl Executor {
    pub fn new(info: ExecutorInfo) -> (r: Executor)
        ensures
            r@ == info@,
    {
        Executor { info }
    }

    /// The executor of this machine.
    pub fn local(id: String, system: &str, device: Option<String>) -> (r: Executor)
        ensures
            r@ == (ExecutorInfoView {
                id: id@,
                system: Some(system@),
                device: opt_text(device),
                labels: Map::empty(),
            }),
    {
        Executor { info: ExecutorInfo { id, system: Some(owned(system)), device, labels: Vec::new() } }
    }

    pub fn info(&self) -> (r: &ExecutorInfo)
        ensures
            r@ == self@,
    {
        &self.info
    }

    /// Decides what a request makes the executor do.
    pub fn handle(&self, request: &ExecutorRequest) -> (r: Result<ToolCall, ExecutorResponse>)
        ensures
            match call_for(request@) {
                Ok(call) => r matches Ok(c) && c@ == call,
                Err(m) => r matches Err(e) && e@ == err_response(request@.id, Some(self@.id), m),
            },
    {
        let method = request.method.as_str();
        match dispatch_tool(method) {
            Err(e) => Err(
                ExecutorResponse::err(request.id.copy(), Some(self.info.id.clone()), e.message),
            ),
            Ok(tool) => {
                let params = apply_soft_timeout_param(
                    method,
                    request.params.copy(),
                    request.tool_timeout_ms,
                );
                let limit_ms = if same_text(method, "exbash") || same_text(method, "rg") {
                    None
                } else {
                    Some(effective_tool_timeout_ms(request.tool_timeout_ms))
                };
                Ok(ToolCall { tool, params, directory: copy_opt(&request.directory), limit_ms })
            },
        }
    }

    /// What the executor tells of itself.
    pub fn executor_info(&self, version: &str) -> (r: ToolResult)
        ensures
            r@ == info_result(self@, version@),
    {
        let mut capabilities: Vec<(String, Json)> = Vec::new();
        put(&mut capabilities, "fileTransfer", Json::Bool(true));
        let mut e: Vec<(String, Json)> = Vec::new();
        put(&mut e, "id", Json::text(self.info.id.as_str()));
        put(&mut e, "system", text_value(&self.info.system));
        put(&mut e, "device", text_value(&self.info.device));
        put(&mut e, "labels", labels_value(&self.info.labels));
        put(&mut e, "protocol", Json::text("remote-executor"));
        put(&mut e, "version", Json::text(version));
        put(&mut e, "capabilities", Json::Object(capabilities));
        put(&mut e, "fileTransferPath", Json::text("/re-file/v1"));
        ToolResult { metadata: Json::Object(e), output: tool_output(self.info.id.clone()) }
    }

    /// Makes the response to a tool call.
    pub fn respond(&self, id: &Json, result: Result<ToolResult, Error>) -> (r: ExecutorResponse)
        ensures
            r@ == tool_response(
                id@,
                self@.id,
                match result {
                    Ok(t) => Ok(t@),
                    Err(e) => Err(e@),
                },
            ),
    {
        match result {
            Ok(t) => ExecutorResponse::ok(
                id.copy(),
                Some(self.info.id.clone()),
                t.into_value(),
            ),
            Err(e) => ExecutorResponse::err(id.copy(), Some(self.info.id.clone()), e.message),
        }
    }
}

/// The error where a tool took too long.
pub fn tool_timed_out(method: &str, ms: u64) -> (r: Error)
    ensures
        r@ == "tool "@ + method@ + " timed out after "@ + dec(ms as nat) + "ms"@,
{
    let mut m = owned("tool ");
    m.append(method);
    m.append(" timed out after ");
    append_dec(&mut m, ms);
    m.append("ms");
    Error::new(m)
}

/// The response to a text that is no request.
pub fn refuse_text(fault: &str) -> (r: ExecutorResponse)
    ensures
        r@ == err_response(JsonView::Null, None, "invalid request: "@ + fault@),
{
    let mut m = owned("invalid request: ");
    m.append(fault);
    ExecutorResponse::err(Json::Null, None, m)
}

/// Whether an error only says that the other side went away.
pub open spec fn went_away(text: Seq<char>) -> bool {
    has_text(text, "Connection reset without closing handshake"@) || has_text(
        text,
        "connection reset by peer"@,
    ) || has_text(text, "Broken pipe"@)
}

pub fn is_disconnect_error(text: &str) -> (r: bool)
    ensures
        r == went_away(text@),
{
    let all = chars_of(text);
    position_of(all.as_slice(), "Connection reset without closing handshake").is_some()
        || position_of(all.as_slice(), "connection reset by peer").is_some() || position_of(
        all.as_slice(),
        "Broken pipe",
    ).is_some()
}

proof fn lemma_info_names_differ()
    ensures
        "id"@ != "metadata"@,
        "metadata"@ != "output"@,
        "version"@ != "capabilities"@,
        "version"@ != "fileTransferPath"@,
        "capabilities"@ != "fileTransferPath"@,
        "protocol"@ != "version"@,
        "protocol"@ != "capabilities"@,
        "protocol"@ != "fileTransferPath"@,
{
    reveal_strlit("id");
    reveal_strlit("metadata");
    reveal_strlit("output");
    reveal_strlit("version");
    reveal_strlit("capabilities");
    reveal_strlit("fileTransferPath");
    reveal_strlit("protocol");
    assert("id"@.len() == 2);
    assert("metadata"@.len() == 8);
    assert("output"@.len() == 6);
    assert("version"@.len() == 7);
    assert("capabilities"@.len() == 12);
    assert("fileTransferPath"@.len() == 16);
    assert("protocol"@.len() == 8);
}

/// What an executor tells of itself is accepted by a caller that connects it
/// under a free name: the caller learns the version and that files can be
/// transferred.
pub proof fn lemma_info_is_accepted(
    options: ConnectView,
    id: JsonView,
    info: ExecutorInfoView,
    version: Seq<char>,
)
    requires
        crate::caller::name_fault(options.id) is None,
        trim(version).len() > 0,
    ensures
        ({
            let response = tool_response(
                id,
                info.id,
                Ok::<ToolResultView, Seq<char>>(info_result(info, version)),
            );
            &&& connected(
                options,
                Ok::<ExecutorResponseView, Seq<char>>(response),
            ) matches Ok::<EndpointView, Seq<char>>(e)
            &&& e.version == Some(version)
            &&& e.protocol == Some("remote-executor"@)
            &&& e.file_transfer
            &&& e.file_transfer_path == "/re-file/v1"@
        }),
{
    lemma_info_names_differ();
    let result = result_value(info_result(info, version));
    let metadata = info_json(info, version);
    assert(field(result, "metadata"@) == Some(metadata));
    assert(text_at(metadata, "version"@) == Some(version));
    assert(text_at(metadata, "protocol"@) == Some("remote-executor"@));
    assert(text_at(metadata, "fileTransferPath"@) == Some("/re-file/v1"@));
    reveal_strlit("/re-file/v1");
    reveal_with_fuel(crate::text::split::trim_start, 2);
    reveal_with_fuel(crate::text::split::trim_end, 2);
    assert(trim("/re-file/v1"@) == "/re-file/v1"@);
    assert(field(metadata, "capabilities"@) is Some);
}

/// Every small tool has a time limit: the one that the request names, but no more than
/// the largest, and the usual one where it names none. A search has it as its parameter
/// unless it came with one, and the program gives up on any other tool in time.
pub proof fn lemma_small_tools_are_limited(q: ExecutorRequestView)
    requires
        q.method == "read"@ || q.method == "glob"@ || q.method == "stat"@ || q.method
            == "FileAction"@ || q.method == "rg"@,
    ensures
        call_for(q) is Ok,
        tool_limit(q.tool_timeout_ms) <= MAX_TOOL_TIMEOUT_MS,
        q.tool_timeout_ms is None ==> tool_limit(q.tool_timeout_ms) == DEFAULT_TOOL_TIMEOUT_MS,
        q.method != "rg"@ ==> call_for(q)->Ok_0.limit_ms == Some(tool_limit(q.tool_timeout_ms)),
        takes_limit(q.method) && q.params is Object && field(q.params, "timeout"@) is None ==> field(
            call_for(q)->Ok_0.params,
            "timeout"@,
        ) == Some(JsonView::Number(NumberView::Unsigned(tool_limit(q.tool_timeout_ms)))),
{
    reveal_strlit("exbash");
    reveal_strlit("read");
    reveal_strlit("glob");
    reveal_strlit("stat");
    reveal_strlit("FileAction");
    reveal_strlit("rg");
    assert("exbash"@.len() == 6 && "read"@.len() == 4 && "glob"@.len() == 4 && "stat"@.len() == 4
        && "FileAction"@.len() == 10 && "rg"@.len() == 2);
}

} // verus!
