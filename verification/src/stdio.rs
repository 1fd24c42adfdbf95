//! A plain bridge over standard input and output: one tool call to a line, and
//! some tools under more than one name.

use crate::error::Error;
use crate::json::{Json, JsonView};
use crate::protocol::{opt_json, opt_text};
use crate::text::{owned, same_text};
use vstd::prelude::*;

verus! {

/// The tools of the bridge.
#[derive(Clone, Copy, Debug, PartialEq, Eq, Structural)]
pub enum StdioTool {
    Exbash,
    Glob,
    Grep,
    Read,
    Diffy,
    Apply,
    Rg,
}

/// The tool that a name means.
pub open spec fn tool_named(method: Seq<char>) -> Option<StdioTool> {
    if method == "exbash"@ || method == "exec"@ {
        Some(StdioTool::Exbash)
    } else if method == "glob"@ {
        Some(StdioTool::Glob)
    } else if method == "grep"@ {
        Some(StdioTool::Grep)
    } else if method == "read"@ {
        Some(StdioTool::Read)
    } else if method == "diffy"@ || method == "apply_diff"@ {
        Some(StdioTool::Diffy)
    } else if method == "apply"@ || method == "apply_patch"@ {
        Some(StdioTool::Apply)
    } else if method == "rg"@ {
        Some(StdioTool::Rg)
    } else {
        None
    }
}

/// How complaints about a tool's parameters name it.
pub open spec fn tool_text(tool: StdioTool) -> Seq<char> {
    match tool {
        StdioTool::Exbash => "exbash"@,
        StdioTool::Glob => "glob"@,
        StdioTool::Grep => "grep"@,
        StdioTool::Read => "read"@,
        StdioTool::Diffy => "diffy"@,
        StdioTool::Apply => "apply"@,
        StdioTool::Rg => "rg"@,
    }
}

fn tool_name(tool: StdioTool) -> (r: &'static str)
    ensures
        r@ == tool_text(tool),
{
    match tool {
        StdioTool::Exbash => "exbash",
        StdioTool::Glob => "glob",
        StdioTool::Grep => "grep",
        StdioTool::Read => "read",
        StdioTool::Diffy => "diffy",
        StdioTool::Apply => "apply",
        StdioTool::Rg => "rg",
    }
}

/// A tool call that came over the bridge.
#[derive(Debug)]
pub struct StdioRequest {
    pub id: Json,
    pub method: String,
    pub params: Json,
    pub directory: Option<String>,
    pub worktree: Option<String>,
}

/// What came of it.
#[derive(Debug)]
pub struct StdioResponse {
    pub id: Json,
    pub ok: bool,
    pub result: Option<Json>,
    pub error: Option<String>,
}

#[verifier::ext_equal]
pub struct StdioResponseView {
    pub id: JsonView,
    pub ok: bool,
    pub result: Option<JsonView>,
    pub error: Option<Seq<char>>,
}

impl View for StdioResponse {
    type V = StdioResponseView;

    open spec fn view(&self) -> StdioResponseView {
        StdioResponseView {
            id: self.id@,
            ok: self.ok,
            result: opt_json(self.result),
            error: opt_text(self.error),
        }
    }
}

pub open spec fn ok_line(id: JsonView, result: JsonView) -> StdioResponseView {
    StdioResponseView { id, ok: true, result: Some(result), error: None }
}

pub open spec fn err_line(id: JsonView, error: Seq<char>) -> StdioResponseView {
    StdioResponseView { id, ok: false, result: None, error: Some(error) }
}

impl StdioResponse {
    pub fn ok(id: Json, result: Json) -> (r: StdioResponse)
        ensures
            r@ == ok_line(id@, result@),
    {
        StdioResponse { id, ok: true, result: Some(result), error: None }
    }

    pub fn err(id: Json, error: String) -> (r: StdioResponse)
        ensures
            r@ == err_line(id@, error@),
    {
        StdioResponse { id, ok: false, result: None, error: Some(error) }
    }
}

/// Finds the tool that a request is for; a request for none is answered at once.
pub fn find_tool(request: &StdioRequest) -> (r: Result<StdioTool, StdioResponse>)
    ensures
        match tool_named(request.method@) {
            Some(tool) => r matches Ok(t) && t == tool,
            None => r matches Err(e) && e@ == err_line(
                request.id@,
                "unknown method: "@ + request.method@,
            ),
        },
{
    let method = request.method.as_str();
    if same_text(method, "exbash") || same_text(method, "exec") {
        Ok(StdioTool::Exbash)
    } else if same_text(method, "glob") {
        Ok(StdioTool::Glob)
    } else if same_text(method, "grep") {
        Ok(StdioTool::Grep)
    } else if same_text(method, "read") {
        Ok(StdioTool::Read)
    } else if same_text(method, "diffy") || same_text(method, "apply_diff") {
        Ok(StdioTool::Diffy)
    } else if same_text(method, "apply") || same_text(method, "apply_patch") {
        Ok(StdioTool::Apply)
    } else if same_text(method, "rg") {
        Ok(StdioTool::Rg)
    } else {
        let mut m = owned("unknown method: ");
        m.append(method);
        Err(StdioResponse::err(request.id.copy(), m))
    }
}

/// How a tool call went: its parameters could not be read, it failed, or it
/// returned something.
#[derive(Debug)]
pub enum Outcome {
    BadParams(String),
    Failed(Error),
    Returned(Json),
}

/// The answer to a tool call.
pub open spec fn answer(id: JsonView, tool: StdioTool, outcome: Outcome) -> StdioResponseView {
    match outcome {
        Outcome::BadParams(fault) => err_line(
            id,
            "bad "@ + tool_text(tool) + " params: "@ + fault@,
        ),
        Outcome::Failed(e) => err_line(id, e@),
        Outcome::Returned(j) => ok_line(id, j@),
    }
}

/// Answers a request with what its tool did.
pub fn handle_request(request: &StdioRequest, tool: StdioTool, outcome: Outcome) -> (r:
    StdioResponse)
    ensures
        r@ == answer(request.id@, tool, outcome),
{
    match outcome {
        Outcome::BadParams(fault) => {
            let mut m = owned("bad ");
            m.append(tool_name(tool));
            m.append(" params: ");
            m.append(fault.as_str());
            StdioResponse::err(request.id.copy(), m)
        },
        Outcome::Failed(e) => StdioResponse::err(request.id.copy(), e.message),
        Outcome::Returned(j) => StdioResponse::ok(request.id.copy(), j),
    }
}

/// The answer to a line that is no request.
pub fn refuse_line(fault: &str) -> (r: StdioResponse)
    ensures
        r@ == err_line(JsonView::Null, "invalid request: "@ + fault@),
{
    let mut m = owned("invalid request: ");
    m.append(fault);
    StdioResponse::err(Json::Null, m)
}

proof fn lemma_method_names_differ()
    ensures
        "exbash"@.len() == 6,
        "exec"@.len() == 4,
        "glob"@.len() == 4,
        "grep"@.len() == 4,
        "read"@.len() == 4,
        "diffy"@.len() == 5,
        "apply_diff"@.len() == 10,
        "apply"@.len() == 5,
        "apply_patch"@.len() == 11,
        "rg"@.len() == 2,
        "exec"@[0] == 'e',
        "glob"@[0] == 'g',
        "glob"@[1] == 'l',
        "grep"@[0] == 'g',
        "grep"@[1] == 'r',
        "read"@[0] == 'r',
        "diffy"@[0] == 'd',
        "apply"@[0] == 'a',
{
    reveal_strlit("exbash");
    reveal_strlit("exec");
    reveal_strlit("glob");
    reveal_strlit("grep");
    reveal_strlit("read");
    reveal_strlit("diffy");
    reveal_strlit("apply_diff");
    reveal_strlit("apply");
    reveal_strlit("apply_patch");
    reveal_strlit("rg");
}

/// Every tool of the bridge is meant by its own name and by its older one, where it has
/// one, and by nothing else.
pub proof fn lemma_tools_are_named(tool: StdioTool, method: Seq<char>)
    ensures
        tool_named(tool_text(tool)) == Some(tool),
        tool_named("exec"@) == Some(StdioTool::Exbash),
        tool_named("apply_diff"@) == Some(StdioTool::Diffy),
        tool_named("apply_patch"@) == Some(StdioTool::Apply),
        tool_named(method) matches Some(t) ==> method == tool_text(t) || (t == StdioTool::Exbash
            && method == "exec"@) || (t == StdioTool::Diffy && method == "apply_diff"@) || (t
            == StdioTool::Apply && method == "apply_patch"@),
{
    lemma_method_names_differ();
}

/// A line is answered with its id: with what the tool returned, with why it failed, or
/// with what is wrong with its parameters.
pub proof fn lemma_line_is_answered(id: JsonView, tool: StdioTool, outcome: Outcome)
    ensures
        ({
            let r = answer(id, tool, outcome);
            &&& r.id == id
            &&& r.ok <==> outcome is Returned
            &&& outcome matches Outcome::Returned(j) ==> r.result == Some(j@) && r.error is None
            &&& outcome matches Outcome::Failed(e) ==> r.result is None && r.error == Some(e@)
            &&& outcome matches Outcome::BadParams(m) ==> r.result is None && r.error == Some(
                "bad "@ + tool_text(tool) + " params: "@ + m@,
            )
        }),
{
}

} // verus!
