//! Requests to executors, their responses, and what tools return.

use crate::json::{field, put, Json, JsonView};
use crate::text::{owned, same_text};
use vstd::prelude::*;

verus! {

/// The text of an optional string.
pub open spec fn opt_text(s: Option<String>) -> Option<Seq<char>> {
    match s {
        Some(s) => Some(s@),
        None => None,
    }
}

/// The text of an optional string that is lent.
pub open spec fn str_text(s: Option<&str>) -> Option<Seq<char>> {
    match s {
        Some(s) => Some(s@),
        None => None,
    }
}

/// A copy of an optional string.
pub fn copy_opt(s: &Option<String>) -> (r: Option<String>)
    ensures
        opt_text(r) == opt_text(*s),
{
    match s {
        Some(s) => Some(s.clone()),
        None => None,
    }
}

/// Labels by name; of two with one name the later counts.
pub open spec fn label_map(labels: Seq<(String, String)>) -> Map<Seq<char>, Seq<char>>
    decreases labels.len(),
{
    if labels.len() == 0 {
        Map::empty()
    } else {
        label_map(labels.drop_last()).insert(labels.last().0@, labels.last().1@)
    }
}

/// Puts a label behind the others.
pub fn put_label(labels: &mut Vec<(String, String)>, key: String, value: String)
    ensures
        label_map(final(labels)@) == label_map(old(labels)@).insert(key@, value@),
        final(labels)@.len() == old(labels)@.len() + 1,
{
    let ghost before = labels@;
    labels.push((key, value));
    proof {
        assert(labels@.drop_last() =~= before);
    }
}

/// What stands under a name.
pub fn find_label<'a>(labels: &'a Vec<(String, String)>, name: &str) -> (r: Option<&'a str>)
    ensures
        match r {
            Some(v) => label_map(labels@).dom().contains(name@) && label_map(labels@)[name@]
                == v@,
            None => !label_map(labels@).dom().contains(name@),
        },
{
    let mut n: usize = labels.len();
    proof {
        assert(labels@.take(n as int) =~= labels@);
    }
    while n > 0
        invariant
            n <= labels@.len(),
            label_map(labels@).dom().contains(name@) == label_map(
                labels@.take(n as int),
            ).dom().contains(name@),
            label_map(labels@).dom().contains(name@) ==> label_map(labels@)[name@] == label_map(
                labels@.take(n as int),
            )[name@],
        decreases n,
    {
        proof {
            assert(labels@.take(n as int).drop_last() =~= labels@.take(n - 1));
        }
        if same_text(labels[n - 1].0.as_str(), name) {
            return Some(labels[n - 1].1.as_str());
        }
        n = n - 1;
    }
    None
}

/// Who an executor is.
#[derive(Debug)]
pub struct ExecutorInfo {
    pub id: String,
    pub system: Option<String>,
    pub device: Option<String>,
    pub labels: Vec<(String, String)>,
}

#[verifier::ext_equal]
pub struct ExecutorInfoView {
    pub id: Seq<char>,
    pub system: Option<Seq<char>>,
    pub device: Option<Seq<char>>,
    pub labels: Map<Seq<char>, Seq<char>>,
}

impl View for ExecutorInfo {
    type V = ExecutorInfoView;

    open spec fn view(&self) -> ExecutorInfoView {
        ExecutorInfoView {
            id: self.id@,
            system: opt_text(self.system),
            device: opt_text(self.device),
            labels: label_map(self.labels@),
        }
    }
}

/// One tool call on its way to an executor.
#[derive(Debug)]
pub struct ExecutorRequest {
    pub id: Json,
    pub method: String,
    pub params: Json,
    pub directory: Option<String>,
    pub executor: Option<String>,
    pub tool_timeout_ms: Option<u64>,
}

#[verifier::ext_equal]
pub struct ExecutorRequestView {
    pub id: JsonView,
    pub method: Seq<char>,
    pub params: JsonView,
    pub directory: Option<Seq<char>>,
    pub executor: Option<Seq<char>>,
    pub tool_timeout_ms: Option<u64>,
}

impl View for ExecutorRequest {
    type V = ExecutorRequestView;

    open spec fn view(&self) -> ExecutorRequestView {
        ExecutorRequestView {
            id: self.id@,
            method: self.method@,
            params: self.params@,
            directory: opt_text(self.directory),
            executor: opt_text(self.executor),
            tool_timeout_ms: self.tool_timeout_ms,
        }
    }
}

/// What came of a tool call.
#[derive(Debug)]
pub struct ExecutorResponse {
    pub id: Json,
    pub ok: bool,
    pub result: Option<Json>,
    pub error: Option<String>,
    pub executor: Option<String>,
}

#[verifier::ext_equal]
pub struct ExecutorResponseView {
    pub id: JsonView,
    pub ok: bool,
    pub result: Option<JsonView>,
    pub error: Option<Seq<char>>,
    pub executor: Option<Seq<char>>,
}

pub open spec fn opt_json(j: Option<Json>) -> Option<JsonView> {
    match j {
        Some(j) => Some(j@),
        None => None,
    }
}

impl View for ExecutorResponse {
    type V = ExecutorResponseView;

    open spec fn view(&self) -> ExecutorResponseView {
        ExecutorResponseView {
            id: self.id@,
            ok: self.ok,
            result: opt_json(self.result),
            error: opt_text(self.error),
            executor: opt_text(self.executor),
        }
    }
}

pub open spec fn ok_response(
    id: JsonView,
    executor: Option<Seq<char>>,
    result: JsonView,
) -> ExecutorResponseView {
    ExecutorResponseView { id, ok: true, result: Some(result), error: None, executor }
}

pub open spec fn err_response(
    id: JsonView,
    executor: Option<Seq<char>>,
    error: Seq<char>,
) -> ExecutorResponseView {
    ExecutorResponseView { id, ok: false, result: None, error: Some(error), executor }
}

impl ExecutorResponse {
    pub fn ok(id: Json, executor: Option<String>, result: Json) -> (r: ExecutorResponse)
        ensures
            r@ == ok_response(id@, opt_text(executor), result@),
    {
        ExecutorResponse { id, ok: true, result: Some(result), error: None, executor }
    }

    pub fn err(id: Json, executor: Option<String>, error: String) -> (r: ExecutorResponse)
        ensures
            r@ == err_response(id@, opt_text(executor), error@),
    {
        ExecutorResponse { id, ok: false, result: None, error: Some(error), executor }
    }
}

/// What a tool returns: facts for programs and text for people.
#[derive(Debug)]
pub struct ToolResult {
    pub metadata: Json,
    pub output: Json,
}

#[verifier::ext_equal]
pub struct ToolResultView {
    pub metadata: JsonView,
    pub output: JsonView,
}

impl View for ToolResult {
    type V = ToolResultView;

    open spec fn view(&self) -> ToolResultView {
        ToolResultView { metadata: self.metadata@, output: self.output@ }
    }
}

pub open spec fn output_of(message: Seq<char>, text: Seq<char>, info: Seq<char>) -> JsonView {
    JsonView::Object(
        Map::empty().insert("message"@, JsonView::Text(message)).insert(
            "text"@,
            JsonView::Text(text),
        ).insert("info"@, JsonView::Text(info)),
    )
}

/// The output of a tool that has a text to show.
pub fn tool_output(text: String) -> (r: Json)
    ensures
        r@ == output_of(""@, text@, ""@),
{
    tool_output_full(owned(""), text, owned(""))
}

/// The output of a tool that has a text to show and a note on it.
pub fn tool_output_with_info(text: String, info: String) -> (r: Json)
    ensures
        r@ == output_of(""@, text@, info@),
{
    tool_output_full(owned(""), text, info)
}

pub fn tool_output_full(message: String, text: String, info: String) -> (r: Json)
    ensures
        r@ == output_of(message@, text@, info@),
{
    let mut entries: Vec<(String, Json)> = Vec::new();
    put(&mut entries, "message", Json::Text(message));
    put(&mut entries, "text", Json::Text(text));
    put(&mut entries, "info", Json::Text(info));
    Json::Object(entries)
}

/// A tool's result as it stands in a response.
pub open spec fn result_value(result: ToolResultView) -> JsonView {
    JsonView::Object(
        Map::empty().insert("metadata"@, result.metadata).insert("output"@, result.output),
    )
}

impl ToolResult {
    pub fn into_value(self) -> (r: Json)
        ensures
            r@ == result_value(self@),
    {
        let mut entries: Vec<(String, Json)> = Vec::new();
        put(&mut entries, "metadata", self.metadata);
        put(&mut entries, "output", self.output);
        Json::Object(entries)
    }
}

/// A result shows its message, its text and its note each under the name of its own.
pub proof fn lemma_output_shows(message: Seq<char>, text: Seq<char>, info: Seq<char>)
    ensures
        field(output_of(message, text, info), "message"@) == Some(JsonView::Text(message)),
        field(output_of(message, text, info), "text"@) == Some(JsonView::Text(text)),
        field(output_of(message, text, info), "info"@) == Some(JsonView::Text(info)),
{
    reveal_strlit("message");
    reveal_strlit("text");
    reveal_strlit("info");
    assert("message"@.len() == 7 && "text"@.len() == 4 && "info"@.len() == 4);
    assert("text"@[0] == 't' && "info"@[0] == 'i');
}

/// A response to a request says whose it is, and either brings a result or an error.
pub proof fn lemma_response_brings_one(
    id: JsonView,
    executor: Option<Seq<char>>,
    result: JsonView,
    error: Seq<char>,
)
    ensures
        ({
            let (good, bad) = (ok_response(id, executor, result), err_response(id, executor, error));
            &&& good.id == id && bad.id == id
            &&& good.executor == executor && bad.executor == executor
            &&& good.ok && !bad.ok
            &&& good.result == Some(result) && good.error is None
            &&& bad.error == Some(error) && bad.result is None
        }),
{
}

/// The result of a tool stands in a response with both of its parts.
pub proof fn lemma_result_value_shows(result: ToolResultView)
    ensures
        field(result_value(result), "metadata"@) == Some(result.metadata),
        field(result_value(result), "output"@) == Some(result.output),
{
    reveal_strlit("metadata");
    reveal_strlit("output");
    assert("metadata"@.len() == 8 && "output"@.len() == 6);
}

} // verus!
