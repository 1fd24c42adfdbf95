//! What becomes of requests on the side of the executor.

use crate::executor::{call_for, info_json, info_result, tool_named, tool_response, went_away, Tool};
use crate::json::{field, text_at, JsonView};
use crate::protocol::{
    lemma_output_shows, lemma_result_value_shows, ExecutorInfoView, ExecutorRequestView,
    ToolResultView,
};
use crate::text::more_laws::lemma_part_is_found;
use vstd::prelude::*;

verus! {

/// The name of a tool.
pub open spec fn tool_name(tool: Tool) -> Seq<char> {
    match tool {
        Tool::Exbash => "exbash"@,
        Tool::Read => "read"@,
        Tool::Stat => "stat"@,
        Tool::FileAction => "FileAction"@,
        Tool::Glob => "glob"@,
        Tool::SetDefaultShell => "set_default_shell"@,
        Tool::ListShells => "list_shells"@,
        Tool::Rg => "rg"@,
        Tool::ExecutorInfo => "_executor_info"@,
    }
}

proof fn lemma_tool_names_differ()
    ensures
        "exbash"@.len() == 6,
        "read"@.len() == 4,
        "stat"@.len() == 4,
        "FileAction"@.len() == 10,
        "glob"@.len() == 4,
        "set_default_shell"@.len() == 17,
        "list_shells"@.len() == 11,
        "rg"@.len() == 2,
        "_executor_info"@.len() == 14,
        "read"@[0] == 'r',
        "stat"@[0] == 's',
        "glob"@[0] == 'g',
{
    reveal_strlit("exbash");
    reveal_strlit("read");
    reveal_strlit("stat");
    reveal_strlit("FileAction");
    reveal_strlit("glob");
    reveal_strlit("set_default_shell");
    reveal_strlit("list_shells");
    reveal_strlit("rg");
    reveal_strlit("_executor_info");
}

/// Every tool is meant by its name and by nothing else.
pub proof fn lemma_tools_are_named(tool: Tool, method: Seq<char>)
    ensures
        tool_named(tool_name(tool)) == Some(tool),
        tool_named(method) matches Some(t) ==> method == tool_name(t),
{
    lemma_tool_names_differ();
}

/// A call does what the request asks for: with its tool, in its directory and with all of
/// its parameters, to which at most a time limit is added that they do not name.
pub proof fn lemma_call_is_as_asked(q: ExecutorRequestView, key: Seq<char>)
    ensures
        call_for(q) is Ok <==> exists|tool: Tool| q.method == tool_name(tool),
        call_for(q) matches Ok(c) ==> {
            &&& q.method == tool_name(c.tool)
            &&& c.directory == q.directory
            &&& key != "timeout"@ || field(q.params, key) is Some ==> field(c.params, key) == field(
                q.params,
                key,
            )
            &&& c.tool != Tool::Rg && c.tool != Tool::Glob ==> c.params == q.params
            &&& !(q.params is Object) ==> c.params == q.params
            &&& q.params is Object ==> c.params is Object
        },
{
    lemma_tool_names_differ();
    if call_for(q) is Ok {
        lemma_tools_are_named(tool_named(q.method)->Some_0, q.method);
    }
    if exists|tool: Tool| q.method == tool_name(tool) {
        let tool = choose|tool: Tool| q.method == tool_name(tool);
        lemma_tools_are_named(tool, q.method);
    }
}

/// A tool has five seconds where the request does not say, what the request says where it
/// does, and ten minutes at most; commands and searches end by themselves.
pub proof fn lemma_tools_have_limits(q: ExecutorRequestView)
    requires
        call_for(q) is Ok,
    ensures
        ({
            let c = call_for(q)->Ok_0;
            let own = c.tool == Tool::Exbash || c.tool == Tool::Rg;
            &&& own ==> c.limit_ms is None
            &&& !own && q.tool_timeout_ms is None ==> c.limit_ms == Some(5_000u64)
            &&& !own && q.tool_timeout_ms is Some && q.tool_timeout_ms->Some_0 <= 600_000
                ==> c.limit_ms == q.tool_timeout_ms
            &&& !own && q.tool_timeout_ms is Some && q.tool_timeout_ms->Some_0 > 600_000
                ==> c.limit_ms == Some(600_000u64)
        }),
{
    lemma_tool_names_differ();
}

proof fn lemma_info_fields_differ()
    ensures
        "id"@.len() == 2,
        "system"@.len() == 6,
        "device"@.len() == 6,
        "labels"@.len() == 6,
        "protocol"@.len() == 8,
        "version"@.len() == 7,
        "capabilities"@.len() == 12,
        "fileTransferPath"@.len() == 16,
        "fileTransfer"@.len() == 12,
        "system"@[0] == 's',
        "device"@[0] == 'd',
        "labels"@[0] == 'l',
        "capabilities"@[0] == 'c',
        "fileTransfer"@[0] == 'f',
{
    reveal_strlit("id");
    reveal_strlit("system");
    reveal_strlit("device");
    reveal_strlit("labels");
    reveal_strlit("protocol");
    reveal_strlit("version");
    reveal_strlit("capabilities");
    reveal_strlit("fileTransferPath");
    reveal_strlit("fileTransfer");
}

/// An executor tells its name, its system, its device, its labels and its version, and
/// that it transfers files and where.
pub proof fn lemma_executor_tells_of_itself(info: ExecutorInfoView, version: Seq<char>)
    ensures
        ({
            let j = info_json(info, version);
            &&& text_at(j, "id"@) == Some(info.id)
            &&& info.system matches Some(s) ==> text_at(j, "system"@) == Some(s)
            &&& info.device matches Some(s) ==> text_at(j, "device"@) == Some(s)
            &&& info.system is None ==> field(j, "system"@) == Some(JsonView::Null)
            &&& info.device is None ==> field(j, "device"@) == Some(JsonView::Null)
            &&& field(j, "labels"@) matches Some(JsonView::Object(labels))
            &&& labels.dom() == info.labels.dom()
            &&& forall|name: Seq<char>| #[trigger]
                info.labels.dom().contains(name) ==> labels[name] == JsonView::Text(
                    info.labels[name],
                )
            &&& text_at(j, "protocol"@) == Some("remote-executor"@)
            &&& text_at(j, "version"@) == Some(version)
            &&& text_at(j, "fileTransferPath"@) == Some("/re-file/v1"@)
            &&& field(j, "capabilities"@) matches Some(c)
            &&& field(c, "fileTransfer"@) == Some(JsonView::Bool(true))
            &&& text_at(info_result(info, version).output, "text"@) == Some(info.id)
            &&& info_result(info, version).metadata == j
        }),
{
    lemma_info_fields_differ();
    lemma_output_shows(""@, info.id, ""@);
}

/// A response has the id of its request and the name of the executor, and brings what the
/// tool returned: all of it, or why it failed.
pub proof fn lemma_tool_is_answered(
    id: JsonView,
    executor: Seq<char>,
    result: Result<ToolResultView, Seq<char>>,
)
    ensures
        ({
            let r = tool_response(id, executor, result);
            &&& r.id == id
            &&& r.executor == Some(executor)
            &&& r.ok <==> result is Ok
            &&& result matches Ok(t) ==> r.error is None && (r.result matches Some(j) && field(
                j,
                "metadata"@,
            ) == Some(t.metadata) && field(j, "output"@) == Some(t.output))
            &&& result matches Err(m) ==> r.result is None && r.error == Some(m)
        }),
{
    if let Ok(t) = result {
        lemma_result_value_shows(t);
    }
}

/// An error that holds one of the three phrases for a lost connection only says that the
/// other side went away, whatever stands around it.
pub proof fn lemma_lost_connections_are_known(front: Seq<char>, back: Seq<char>)
    ensures
        went_away(front + "Connection reset without closing handshake"@ + back),
        went_away(front + "connection reset by peer"@ + back),
        went_away(front + "Broken pipe"@ + back),
{
    lemma_part_is_found(front, "Connection reset without closing handshake"@, back);
    lemma_part_is_found(front, "connection reset by peer"@, back);
    lemma_part_is_found(front, "Broken pipe"@, back);
}

} // verus!
