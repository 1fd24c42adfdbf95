//! The caller: it knows the executors, decides which of them a request goes to,
//! and answers what is its own.
//!
//! Connections are up to the program around it, which carries requests out and
//! hands replies back.

pub mod laws;

use crate::error::Error;
use crate::json::value::{as_sent, pretty, pretty_text};
use crate::json::{
    add_item, entries_view, field, items_view, put, signed_of, text_at, unsigned_of, Json, JsonView,
};
use crate::protocol::{
    copy_opt, err_response, label_map, ok_response, opt_text, output_of, put_label, result_value,
    str_text, tool_output, ExecutorInfo, ExecutorInfoView, ExecutorRequest, ExecutorRequestView,
    ExecutorResponse, ExecutorResponseView, ToolResult, ToolResultView,
};
use crate::table::{in_name_order, NameTable};
use crate::text::number::{append_dec, dec};
use crate::text::split::{after_prefix, is_blank, starts, starts_with, trim};
use crate::text::{append_chars, chars_of, owned, same_text};
use vstd::prelude::*;

verus! {

/// How long an executor may take to answer where nothing else is said.
pub const DEFAULT_CALL_TIMEOUT_MS: u64 = 30_000;

/// How much longer than the time it allows a tool an executor may take.
pub const TIMEOUT_BUFFER_MS: u64 = 5_000;

pub type StdioRequest = ExecutorRequest;

pub type StdioResponse = ExecutorResponse;

/// A request to connect an executor.
#[derive(Debug)]
pub struct ConnectExecutorOptions {
    pub id: String,
    pub url: String,
    pub system: Option<String>,
    pub device: Option<String>,
    pub labels: Vec<(String, String)>,
}

#[verifier::ext_equal]
pub struct ConnectView {
    pub id: Seq<char>,
    pub url: Seq<char>,
    pub system: Option<Seq<char>>,
    pub device: Option<Seq<char>>,
    pub labels: Map<Seq<char>, Seq<char>>,
}

impl View for ConnectExecutorOptions {
    type V = ConnectView;

    open spec fn view(&self) -> ConnectView {
        ConnectView {
            id: self.id@,
            url: self.url@,
            system: opt_text(self.system),
            device: opt_text(self.device),
            labels: label_map(self.labels@),
        }
    }
}

/// A request to make an executor the default one.
#[derive(Debug)]
pub struct SetDefaultExecutorOptions {
    pub id: String,
}

#[derive(Clone, Copy, Debug, PartialEq, Eq, Structural)]
pub enum FileTransferMode {
    Download,
    Upload,
}

/// A request for the address at which a file can be fetched or put.
#[derive(Debug)]
pub struct FileTransferOptions {
    pub mode: FileTransferMode,
    pub local_path: String,
    pub target_path: String,
    pub overwrite: Option<bool>,
}

#[verifier::ext_equal]
pub struct FileTransferView {
    pub mode: FileTransferMode,
    pub local_path: Seq<char>,
    pub target_path: Seq<char>,
    pub overwrite: Option<bool>,
}

impl View for FileTransferOptions {
    type V = FileTransferView;

    open spec fn view(&self) -> FileTransferView {
        FileTransferView {
            mode: self.mode,
            local_path: self.local_path@,
            target_path: self.target_path@,
            overwrite: self.overwrite,
        }
    }
}

/// An executor, where it is reached and what it can do.
#[derive(Debug)]
pub struct ExecutorEndpoint {
    pub info: ExecutorInfo,
    pub url: String,
    pub protocol: Option<String>,
    pub version: Option<String>,
    pub file_transfer: bool,
    pub file_transfer_path: String,
}

#[verifier::ext_equal]
pub struct EndpointView {
    pub info: ExecutorInfoView,
    pub url: Seq<char>,
    pub protocol: Option<Seq<char>>,
    pub version: Option<Seq<char>>,
    pub file_transfer: bool,
    pub file_transfer_path: Seq<char>,
}

impl View for ExecutorEndpoint {
    type V = EndpointView;

    open spec fn view(&self) -> EndpointView {
        EndpointView {
            info: self.info@,
            url: self.url@,
            protocol: opt_text(self.protocol),
            version: opt_text(self.version),
            file_transfer: self.file_transfer,
            file_transfer_path: self.file_transfer_path@,
        }
    }
}

/// The executors that a caller knows, the one that is meant where a request
/// names none, and whether a write is under way.
#[derive(Debug)]
pub struct Caller {
    default_executor: String,
    executors: NameTable<ExecutorEndpoint>,
    writing: bool,
}

#[verifier::ext_equal]
pub struct CallerView {
    pub default_executor: Seq<char>,
    pub executors: Map<Seq<char>, EndpointView>,
    pub writing: bool,
}

impl View for Caller {
    type V = CallerView;

    closed spec fn view(&self) -> CallerView {
        CallerView {
            default_executor: self.default_executor@,
            executors: self.executors@,
            writing: self.writing,
        }
    }
}

/// What holds of every caller: the executor of its own program is there, and so
/// is the default one.
pub open spec fn well_formed(c: CallerView) -> bool {
    c.executors.dom().contains("local"@) && c.executors.dom().contains(c.default_executor)
}

pub open spec fn local_endpoint(
    info: ExecutorInfoView,
    addr: Seq<char>,
    version: Seq<char>,
) -> EndpointView {
    EndpointView {
        info,
        url: "ws://"@ + addr,
        protocol: Some("remote-executor"@),
        version: Some(version),
        file_transfer: true,
        file_transfer_path: "/re-file/v1"@,
    }
}

/// A caller that knows the executor of its own program alone.
pub open spec fn fresh(info: ExecutorInfoView, addr: Seq<char>, version: Seq<char>) -> CallerView {
    CallerView {
        default_executor: "local"@,
        executors: Map::empty().insert("local"@, local_endpoint(info, addr, version)),
        writing: false,
    }
}

/// The caller once an executor is connected under a name.
pub open spec fn with_executor(c: CallerView, id: Seq<char>, endpoint: EndpointView) -> CallerView {
    CallerView { executors: c.executors.insert(id, endpoint), ..c }
}

/// The caller once the executor with a name is the default one.
pub open spec fn with_default(c: CallerView, id: Seq<char>) -> CallerView {
    CallerView { default_executor: id, ..c }
}

/// An address with its scheme.
pub open spec fn ws_url(url: Seq<char>) -> Seq<char> {
    if starts(url, "ws://"@) || starts(url, "wss://"@) {
        url
    } else {
        "ws://"@ + url
    }
}

pub fn normalize_ws_url(url: &str) -> (r: String)
    ensures
        r@ == ws_url(url@),
{
    let all = chars_of(url);
    if starts_with(all.as_slice(), "ws://") || starts_with(all.as_slice(), "wss://") {
        owned(url)
    } else {
        let mut out = owned("ws://");
        out.append(url);
        out
    }
}

/// Where an executor takes file transfers: at its own address, over HTTP.
pub open spec fn transfer_url(url: Seq<char>) -> Result<Seq<char>, Seq<char>> {
    if starts(url, "ws://"@) {
        Ok("http://"@ + url.skip("ws://"@.len() as int) + "/re-file/v1"@)
    } else if starts(url, "wss://"@) {
        Ok("https://"@ + url.skip("wss://"@.len() as int) + "/re-file/v1"@)
    } else {
        Err("unsupported executor URL for file transfer: "@ + url)
    }
}

pub fn http_file_transfer_url(url: &str) -> (r: Result<String, Error>)
    ensures
        match r {
            Ok(u) => transfer_url(url@) == Ok::<Seq<char>, Seq<char>>(u@),
            Err(e) => transfer_url(url@) == Err::<Seq<char>, Seq<char>>(e@),
        },
{
    let all = chars_of(url);
    if let Some(rest) = after_prefix(all.as_slice(), "ws://") {
        let mut out = owned("http://");
        append_chars(&mut out, rest);
        out.append("/re-file/v1");
        return Ok(out);
    }
    if let Some(rest) = after_prefix(all.as_slice(), "wss://") {
        let mut out = owned("https://");
        append_chars(&mut out, rest);
        out.append("/re-file/v1");
        return Ok(out);
    }
    let mut m = owned("unsupported executor URL for file transfer: ");
    m.append(url);
    Err(Error::new(m))
}

/// Every address that was given its scheme takes file transfers.
pub proof fn lemma_normal_url_takes_transfers(url: Seq<char>)
    ensures
        transfer_url(ws_url(url)) is Ok,
{
    let out = ws_url(url);
    if !(starts(url, "ws://"@) || starts(url, "wss://"@)) {
        assert(out.take("ws://"@.len() as int) =~= "ws://"@);
    }
}

/// Whether a tool changes something on an executor.
pub open spec fn writes(method: Seq<char>) -> bool {
    method == "FileAction"@ || method == "set_default_shell"@
}

pub fn is_write_method(method: &str) -> (r: bool)
    ensures
        r == writes(method@),
{
    same_text(method, "FileAction") || same_text(method, "set_default_shell")
}

/// Whether a request may start now: there is one write at a time.
pub open spec fn lets_in(c: CallerView, method: Seq<char>) -> bool {
    !(writes(method) && c.writing)
}

/// The caller once a request asked to start.
pub open spec fn entered(c: CallerView, method: Seq<char>) -> CallerView {
    CallerView { writing: c.writing || writes(method), ..c }
}

/// The caller once a request that was let in is done.
pub open spec fn left(c: CallerView, method: Seq<char>) -> CallerView {
    CallerView { writing: c.writing && !writes(method), ..c }
}

/// While a write runs every other write is turned away and everything else is
/// let in; once it is done the next write is let in.
pub proof fn lemma_one_write_at_a_time(
    c: CallerView,
    first: Seq<char>,
    others: Seq<Seq<char>>,
    next: Seq<char>,
)
    requires
        writes(first),
        lets_in(c, first),
    ensures
        ({
            let running = others.fold_left(
                entered(c, first),
                |now: CallerView, method: Seq<char>| entered(now, method),
            );
            &&& lets_in(running, next) == !writes(next)
            &&& lets_in(left(running, first), next)
        }),
    decreases others.len(),
{
    if others.len() > 0 {
        lemma_one_write_at_a_time(c, first, others.drop_last(), next);
    }
}

/// How long an executor may take for a request; `None` where there is no limit.
pub open spec fn call_limit(method: Seq<char>, params: JsonView) -> Option<u64> {
    if method == "exbash"@ {
        Some(
            with_buffer(
                match field(params, "read_timeout"@) {
                    Some(j) => match unsigned_of(j) {
                        Some(n) => n,
                        None => 10_000,
                    },
                    None => 10_000,
                },
            ),
        )
    } else if method == "rg"@ || method == "glob"@ {
        let limit = match field(params, "timeout"@) {
            Some(j) => match signed_of(j) {
                Some(n) => n as int,
                None => 10_000,
            },
            None => 10_000,
        };
        if limit == -1 {
            None
        } else if limit < 0 {
            Some(TIMEOUT_BUFFER_MS)
        } else {
            Some(with_buffer(limit as u64))
        }
    } else {
        Some(DEFAULT_CALL_TIMEOUT_MS)
    }
}

/// A time limit and the time that the way there and back may take.
pub open spec fn with_buffer(ms: u64) -> u64 {
    if ms + TIMEOUT_BUFFER_MS > u64::MAX {
        u64::MAX
    } else {
        (ms + TIMEOUT_BUFFER_MS) as u64
    }
}

fn buffered(ms: u64) -> (r: u64)
    ensures
        r == with_buffer(ms),
{
    if ms > u64::MAX - TIMEOUT_BUFFER_MS {
        u64::MAX
    } else {
        ms + TIMEOUT_BUFFER_MS
    }
}

pub fn call_timeout_ms_for(request: &ExecutorRequest) -> (r: Option<u64>)
    ensures
        r == call_limit(request@.method, request@.params),
{
    let method = request.method.as_str();
    if same_text(method, "exbash") {
        let ms: u64 = match request.params.get("read_timeout") {
            Some(j) => match j.as_u64() {
                Some(n) => n,
                None => 10_000,
            },
            None => 10_000,
        };
        return Some(buffered(ms));
    }
    if same_text(method, "rg") || same_text(method, "glob") {
        let ms: i64 = match request.params.get("timeout") {
            Some(j) => match j.as_i64() {
                Some(n) => n,
                None => 10_000,
            },
            None => 10_000,
        };
        if ms == -1 {
            return None;
        }
        if ms < 0 {
            return Some(TIMEOUT_BUFFER_MS);
        }
        return Some(buffered(ms as u64));
    }
    Some(DEFAULT_CALL_TIMEOUT_MS)
}

/// A caller always waits longer than the tool is allowed to take.
pub proof fn lemma_call_outlasts_tool(method: Seq<char>, params: JsonView)
    requires
        call_limit(method, params) is Some,
    ensures
        call_limit(method, params)->Some_0 >= TIMEOUT_BUFFER_MS,
        method == "exbash"@ && field(params, "read_timeout"@) is Some && unsigned_of(
            field(params, "read_timeout"@)->Some_0,
        ) is Some ==> {
            let allowed = unsigned_of(field(params, "read_timeout"@)->Some_0)->Some_0;
            call_limit(method, params)->Some_0 >= allowed && (allowed < u64::MAX ==> call_limit(
                method,
                params,
            )->Some_0 > allowed)
        },
{
}

/// A request on its way to an executor.
#[derive(Debug)]
pub struct Forward {
    pub executor: String,
    pub url: String,
    pub request: ExecutorRequest,
    pub timeout_ms: Option<u64>,
}

#[verifier::ext_equal]
pub struct ForwardView {
    pub executor: Seq<char>,
    pub url: Seq<char>,
    pub request: ExecutorRequestView,
    pub timeout_ms: Option<u64>,
}

impl View for Forward {
    type V = ForwardView;

    open spec fn view(&self) -> ForwardView {
        ForwardView {
            executor: self.executor@,
            url: self.url@,
            request: self.request@,
            timeout_ms: self.timeout_ms,
        }
    }
}

/// What becomes of a request: the caller's own tools are told apart by name,
/// anything else goes to an executor, and a request that finds none is answered
/// at once.
#[derive(Debug)]
pub enum CallerStep {
    ListExecutors,
    Connect,
    SetDefault,
    FileTransfer,
    Forward(Forward),
    Answer(ExecutorResponse),
}

pub enum CallerStepView {
    ListExecutors,
    Connect,
    SetDefault,
    FileTransfer,
    Forward(ForwardView),
    Answer(ExecutorResponseView),
}

impl View for CallerStep {
    type V = CallerStepView;

    open spec fn view(&self) -> CallerStepView {
        match self {
            CallerStep::ListExecutors => CallerStepView::ListExecutors,
            CallerStep::Connect => CallerStepView::Connect,
            CallerStep::SetDefault => CallerStepView::SetDefault,
            CallerStep::FileTransfer => CallerStepView::FileTransfer,
            CallerStep::Forward(f) => CallerStepView::Forward(f@),
            CallerStep::Answer(a) => CallerStepView::Answer(a@),
        }
    }
}

/// The executor that a request means.
pub open spec fn meant_executor(c: CallerView, requested: Option<Seq<char>>) -> Seq<char> {
    match requested {
        Some(id) => id,
        None => c.default_executor,
    }
}

pub open spec fn not_found(id: Seq<char>) -> Seq<char> {
    "executor not found: "@ + id
}

/// A refusal that the caller itself gives.
pub open spec fn caller_error(id: JsonView, message: Seq<char>) -> ExecutorResponseView {
    err_response(id, Some("caller"@), message)
}

/// The request as an executor gets it: it no longer says where it goes.
pub open spec fn stripped(q: ExecutorRequestView) -> ExecutorRequestView {
    ExecutorRequestView { executor: None, ..q }
}

/// Whether the caller answers a request itself.
pub open spec fn answers_itself(method: Seq<char>) -> bool {
    method == "list_executor"@ || method == "connect_to_executor"@ || method
        == "set_default_executor"@ || method == "file_transfer"@
}

pub open spec fn step_for(c: CallerView, q: ExecutorRequestView) -> CallerStepView {
    if q.method == "list_executor"@ {
        CallerStepView::ListExecutors
    } else if q.method == "connect_to_executor"@ {
        CallerStepView::Connect
    } else if q.method == "set_default_executor"@ {
        CallerStepView::SetDefault
    } else if q.method == "file_transfer"@ {
        CallerStepView::FileTransfer
    } else {
        let id = meant_executor(c, q.executor);
        if c.executors.dom().contains(id) {
            CallerStepView::Forward(
                ForwardView {
                    executor: c.executors[id].info.id,
                    url: c.executors[id].url,
                    request: stripped(q),
                    timeout_ms: call_limit(q.method, q.params),
                },
            )
        } else {
            CallerStepView::Answer(caller_error(q.id, not_found(id)))
        }
    }
}

/// A request that the caller answers itself is never passed on, and every other
/// one is, unless no executor has the name that is meant.
pub proof fn lemma_own_requests_stay(c: CallerView, q: ExecutorRequestView)
    ensures
        step_for(c, q) is Forward <==> !answers_itself(q.method) && c.executors.dom().contains(
            meant_executor(c, q.executor),
        ),
        step_for(c, q) is Answer ==> !answers_itself(q.method),
{
}

fn copy_stripped(q: &ExecutorRequest) -> (r: ExecutorRequest)
    ensures
        r@ == stripped(q@),
{
    ExecutorRequest {
        id: q.id.copy(),
        method: q.method.clone(),
        params: q.params.copy(),
        directory: copy_opt(&q.directory),
        executor: None,
        tool_timeout_ms: q.tool_timeout_ms,
    }
}

/// The request by which an executor is asked who it is.
pub open spec fn info_request() -> ExecutorRequestView {
    ExecutorRequestView {
        id: JsonView::Text("_executor_info"@),
        method: "_executor_info"@,
        params: JsonView::Object(Map::empty()),
        directory: None,
        executor: None,
        tool_timeout_ms: None,
    }
}

/// Why an executor cannot be connected under a name.
pub open spec fn name_fault(id: Seq<char>) -> Option<Seq<char>> {
    if trim(id).len() == 0 {
        Some("executor id is required"@)
    } else if id == "local"@ {
        Some("local executor is reserved"@)
    } else {
        None
    }
}

fn check_name(id: &str) -> (r: Option<Error>)
    ensures
        match r {
            Some(e) => name_fault(id@) == Some(e@),
            None => name_fault(id@) is None,
        },
{
    let all = chars_of(id);
    if is_blank(all.as_slice()) {
        Some(Error::of("executor id is required"))
    } else if same_text(id, "local") {
        Some(Error::of("local executor is reserved"))
    } else {
        None
    }
}

/// The question that is put to an executor before it is connected.
pub fn connect_question(options: &ConnectExecutorOptions) -> (r: Result<Forward, Error>)
    ensures
        match name_fault(options@.id) {
            Some(m) => r matches Err(e) && e@ == m,
            None => r matches Ok(f) && f@ == (ForwardView {
                executor: options@.id,
                url: ws_url(options@.url),
                request: info_request(),
                timeout_ms: Some(DEFAULT_CALL_TIMEOUT_MS),
            }),
        },
{
    if let Some(e) = check_name(options.id.as_str()) {
        return Err(e);
    }
    Ok(
        Forward {
            executor: options.id.clone(),
            url: normalize_ws_url(options.url.as_str()),
            request: ExecutorRequest {
                id: Json::text("_executor_info"),
                method: owned("_executor_info"),
                params: Json::empty(),
                directory: None,
                executor: None,
                tool_timeout_ms: None,
            },
            timeout_ms: Some(DEFAULT_CALL_TIMEOUT_MS),
        },
    )
}

/// The labels among the entries of an object: those that are texts.
pub open spec fn text_entries(m: Map<Seq<char>, JsonView>) -> Map<Seq<char>, Seq<char>> {
    Map::new(
        |k: Seq<char>| m.dom().contains(k) && m[k] is Text,
        |k: Seq<char>| m[k]->Text_0,
    )
}

/// What an executor says of itself: the metadata of a result, or the result.
pub open spec fn told(result: JsonView) -> JsonView {
    match field(result, "metadata"@) {
        Some(m) => m,
        None => result,
    }
}

/// A text that is there and not blank.
pub open spec fn filled_text(j: JsonView, key: Seq<char>) -> Option<Seq<char>> {
    match text_at(j, key) {
        Some(s) => if trim(s).len() > 0 {
            Some(s)
        } else {
            None
        },
        None => None,
    }
}

pub open spec fn or_told(own: Option<Seq<char>>, j: JsonView, key: Seq<char>) -> Option<Seq<char>> {
    match own {
        Some(s) => Some(s),
        None => text_at(j, key),
    }
}

/// An executor with what it says of itself; what the connecting request said
/// stands.
pub open spec fn introduced(options: ConnectView, metadata: JsonView) -> Result<
    EndpointView,
    Seq<char>,
> {
    match filled_text(metadata, "version"@) {
        None => Err("executor info missing version"@),
        Some(version) => match field(metadata, "capabilities"@) {
            Some(JsonView::Object(capabilities)) => Ok(
                EndpointView {
                    info: ExecutorInfoView {
                        id: options.id,
                        system: or_told(options.system, metadata, "system"@),
                        device: or_told(options.device, metadata, "device"@),
                        labels: if options.labels == Map::<Seq<char>, Seq<char>>::empty() {
                            match field(metadata, "labels"@) {
                                Some(JsonView::Object(m)) => text_entries(m),
                                _ => Map::empty(),
                            }
                        } else {
                            options.labels
                        },
                    },
                    url: ws_url(options.url),
                    protocol: text_at(metadata, "protocol"@),
                    version: Some(version),
                    file_transfer: capabilities.dom().contains("fileTransfer"@)
                        && capabilities["fileTransfer"@] == JsonView::Bool(true),
                    file_transfer_path: match filled_text(metadata, "fileTransferPath"@) {
                        Some(p) => p,
                        None => "/re-file/v1"@,
                    },
                },
            ),
            _ => Err("executor info missing capabilities"@),
        },
    }
}

/// The endpoint that comes of an executor's answer.
pub open spec fn answered(options: ConnectView, response: ExecutorResponseView) -> Result<
    EndpointView,
    Seq<char>,
> {
    if !response.ok {
        Err(
            match response.error {
                Some(m) => m,
                None => "_executor_info failed"@,
            },
        )
    } else {
        introduced(
            options,
            told(
                match response.result {
                    Some(j) => j,
                    None => JsonView::Null,
                },
            ),
        )
    }
}

fn find_filled(j: &Json, key: &str) -> (r: Option<String>)
    ensures
        opt_text(r) == filled_text(j@, key@),
{
    match j.get_text(key) {
        Some(s) => {
            let all = chars_of(s);
            if is_blank(all.as_slice()) {
                None
            } else {
                Some(owned(s))
            }
        },
        None => None,
    }
}

fn find_told(own: &Option<String>, j: &Json, key: &str) -> (r: Option<String>)
    ensures
        opt_text(r) == or_told(opt_text(*own), j@, key@),
{
    match own {
        Some(s) => Some(s.clone()),
        None => match j.get_text(key) {
            Some(s) => Some(owned(s)),
            None => None,
        },
    }
}

proof fn lemma_label_dom(labels: Seq<(String, String)>)
    ensures
        labels.len() > 0 ==> label_map(labels) != Map::<Seq<char>, Seq<char>>::empty(),
{
    if labels.len() > 0 {
        assert(label_map(labels).dom().contains(labels.last().0@));
    }
}

proof fn lemma_entry_there(s: Seq<(String, Json)>, i: int)
    requires
        0 <= i < s.len(),
    ensures
        entries_view(s).dom().contains(s[i].0@),
    decreases s.len(),
{
    if i < s.len() - 1 {
        lemma_entry_there(s.drop_last(), i);
    }
}

proof fn lemma_entry_somewhere(s: Seq<(String, Json)>, key: Seq<char>)
    requires
        entries_view(s).dom().contains(key),
    ensures
        exists|i: int| 0 <= i < s.len() && (#[trigger] s[i]).0@ == key,
    decreases s.len(),
{
    if s.len() > 0 {
        if s.last().0@ == key {
            assert(s[s.len() - 1].0@ == key);
        } else {
            lemma_entry_somewhere(s.drop_last(), key);
            let i = choose|i: int| 0 <= i < s.drop_last().len() && (#[trigger] s.drop_last()[i]).0@
                == key;
            assert(s[i].0@ == key);
        }
    }
}

fn collect_labels(object: &Json) -> (r: Vec<(String, String)>)
    ensures
        label_map(r@) == match object@ {
            JsonView::Object(m) => text_entries(m),
            _ => Map::empty(),
        },
{
    let mut out: Vec<(String, String)> = Vec::new();
    match object {
        Json::Object(entries) => {
            let ghost m = entries_view(entries@);
            let mut i: usize = 0;
            while i < entries.len()
                invariant
                    i <= entries@.len(),
                    m == entries_view(entries@),
                    object@ == JsonView::Object(m),
                    forall|k: Seq<char>| #[trigger]
                        label_map(out@).dom().contains(k) ==> text_entries(m).dom().contains(k)
                            && label_map(out@)[k] == text_entries(m)[k],
                    forall|j: int|
                        0 <= j < i && m[(#[trigger] entries@[j]).0@] is Text ==> label_map(
                            out@,
                        ).dom().contains(entries@[j].0@),
                decreases entries@.len() - i,
            {
                let key = entries[i].0.as_str();
                proof {
                    lemma_entry_there(entries@, i as int);
                }
                if let Some(s) = object.get_text(key) {
                    put_label(&mut out, owned(key), owned(s));
                }
                i = i + 1;
            }
            proof {
                assert forall|k: Seq<char>| #[trigger] text_entries(m).dom().contains(k) implies
                    label_map(out@).dom().contains(k) by {
                    lemma_entry_somewhere(entries@, k);
                }
                assert(label_map(out@) =~= text_entries(m));
            }
        },
        _ => {},
    }
    out
}

fn introduce(options: &ConnectExecutorOptions, metadata: &Json) -> (r: Result<
    ExecutorEndpoint,
    Error,
>)
    ensures
        match r {
            Ok(e) => introduced(options@, metadata@) == Ok::<EndpointView, Seq<char>>(e@),
            Err(e) => introduced(options@, metadata@) == Err::<EndpointView, Seq<char>>(e@),
        },
{
    let version = match find_filled(metadata, "version") {
        Some(v) => v,
        None => {
            return Err(Error::of("executor info missing version"));
        },
    };
    let capabilities = match metadata.get("capabilities") {
        Some(c) => c,
        None => {
            return Err(Error::of("executor info missing capabilities"));
        },
    };
    if !capabilities.is_object() {
        return Err(Error::of("executor info missing capabilities"));
    }
    let file_transfer = match capabilities.get("fileTransfer") {
        Some(Json::Bool(b)) => *b,
        _ => false,
    };
    let labels = if options.labels.len() == 0 {
        match metadata.get("labels") {
            Some(j) => collect_labels(j),
            None => Vec::new(),
        }
    } else {
        copy_labels(&options.labels)
    };
    proof {
        lemma_label_dom(options.labels@);
    }
    let protocol = match metadata.get_text("protocol") {
        Some(s) => Some(owned(s)),
        None => None,
    };
    let file_transfer_path = match find_filled(metadata, "fileTransferPath") {
        Some(p) => p,
        None => owned("/re-file/v1"),
    };
    Ok(
        ExecutorEndpoint {
            info: ExecutorInfo {
                id: options.id.clone(),
                system: find_told(&options.system, metadata, "system"),
                device: find_told(&options.device, metadata, "device"),
                labels,
            },
            url: normalize_ws_url(options.url.as_str()),
            protocol,
            version: Some(version),
            file_transfer,
            file_transfer_path,
        },
    )
}

/// A copy of labels.
pub fn copy_labels(labels: &Vec<(String, String)>) -> (r: Vec<(String, String)>)
    ensures
        label_map(r@) == label_map(labels@),
{
    let mut out: Vec<(String, String)> = Vec::new();
    let mut i: usize = 0;
    proof {
        assert(labels@.take(0) =~= seq![]);
    }
    while i < labels.len()
        invariant
            i <= labels@.len(),
            label_map(out@) == label_map(labels@.take(i as int)),
        decreases labels@.len() - i,
    {
        put_label(&mut out, labels[i].0.clone(), labels[i].1.clone());
        proof {
            assert(labels@.take(i + 1).drop_last() =~= labels@.take(i as int));
        }
        i = i + 1;
    }
    proof {
        assert(labels@.take(labels@.len() as int) =~= labels@);
    }
    out
}

fn endpoint_from(options: &ConnectExecutorOptions, response: &ExecutorResponse) -> (r: Result<
    ExecutorEndpoint,
    Error,
>)
    ensures
        match r {
            Ok(e) => answered(options@, response@) == Ok::<EndpointView, Seq<char>>(e@),
            Err(e) => answered(options@, response@) == Err::<EndpointView, Seq<char>>(e@),
        },
{
    if !response.ok {
        return Err(
            match &response.error {
                Some(m) => Error::of(m.as_str()),
                None => Error::of("_executor_info failed"),
            },
        );
    }
    match &response.result {
        Some(result) => match result.get("metadata") {
            Some(m) => introduce(options, m),
            None => introduce(options, result),
        },
        None => {
            let null = Json::Null;
            introduce(options, &null)
        },
    }
}

/// What comes of connecting an executor that gave this reply.
pub open spec fn connected(
    options: ConnectView,
    reply: Result<ExecutorResponseView, Seq<char>>,
) -> Result<EndpointView, Seq<char>> {
    match name_fault(options.id) {
        Some(m) => Err(m),
        None => match reply {
            Err(m) => Err(m),
            Ok(response) => answered(options, response),
        },
    }
}

pub open spec fn reply_view(reply: Result<ExecutorResponse, Error>) -> Result<
    ExecutorResponseView,
    Seq<char>,
> {
    match reply {
        Ok(response) => Ok(response@),
        Err(e) => Err(e@),
    }
}

pub open spec fn text_json(s: Option<Seq<char>>) -> JsonView {
    match s {
        Some(s) => JsonView::Text(s),
        None => JsonView::Null,
    }
}

pub open spec fn labels_json(labels: Map<Seq<char>, Seq<char>>) -> JsonView {
    JsonView::Object(labels.map_values(|s: Seq<char>| JsonView::Text(s)))
}

pub fn text_value(s: &Option<String>) -> (r: Json)
    ensures
        r@ == text_json(opt_text(*s)),
{
    match s {
        Some(s) => Json::text(s.as_str()),
        None => Json::Null,
    }
}

pub fn labels_value(labels: &Vec<(String, String)>) -> (r: Json)
    ensures
        r@ == labels_json(label_map(labels@)),
{
    let mut e: Vec<(String, Json)> = Vec::new();
    let mut i: usize = 0;
    let ghost shown = |s: Seq<char>| JsonView::Text(s);
    proof {
        assert(labels@.take(0) =~= seq![]);
        assert(Map::<Seq<char>, Seq<char>>::empty().map_values(shown) =~= Map::empty());
    }
    while i < labels.len()
        invariant
            i <= labels@.len(),
            shown == (|s: Seq<char>| JsonView::Text(s)),
            entries_view(e@) == label_map(labels@.take(i as int)).map_values(shown),
        decreases labels@.len() - i,
    {
        put(&mut e, labels[i].0.as_str(), Json::text(labels[i].1.as_str()));
        proof {
            let next = labels@.take(i + 1);
            let last = labels@[i as int];
            assert(next.drop_last() =~= labels@.take(i as int));
            assert(label_map(next).map_values(shown) =~= label_map(
                labels@.take(i as int),
            ).map_values(shown).insert(last.0@, shown(last.1@)));
        }
        i = i + 1;
    }
    proof {
        assert(labels@.take(labels@.len() as int) =~= labels@);
    }
    Json::Object(e)
}

/// An executor as it stands in a list.
pub open spec fn endpoint_json(e: EndpointView) -> JsonView {
    JsonView::Object(
        Map::empty().insert("id"@, JsonView::Text(e.info.id)).insert(
            "system"@,
            text_json(e.info.system),
        ).insert("device"@, text_json(e.info.device)).insert("labels"@, labels_json(e.info.labels)).insert(
            "url"@,
            JsonView::Text(e.url),
        ).insert("protocol"@, text_json(e.protocol)).insert("version"@, text_json(e.version)).insert(
            "fileTransfer"@,
            JsonView::Bool(e.file_transfer),
        ).insert("fileTransferPath"@, JsonView::Text(e.file_transfer_path)),
    )
}

fn endpoint_value(e: &ExecutorEndpoint) -> (r: Json)
    ensures
        r@ == endpoint_json(e@),
{
    let mut out: Vec<(String, Json)> = Vec::new();
    put(&mut out, "id", Json::text(e.info.id.as_str()));
    put(&mut out, "system", text_value(&e.info.system));
    put(&mut out, "device", text_value(&e.info.device));
    put(&mut out, "labels", labels_value(&e.info.labels));
    put(&mut out, "url", Json::text(e.url.as_str()));
    put(&mut out, "protocol", text_value(&e.protocol));
    put(&mut out, "version", text_value(&e.version));
    put(&mut out, "fileTransfer", Json::Bool(e.file_transfer));
    put(&mut out, "fileTransferPath", Json::text(e.file_transfer_path.as_str()));
    Json::Object(out)
}

/// The executors of a caller in the order of their names, and the default one.
pub open spec fn executors_json(c: CallerView) -> JsonView {
    let pairs = in_name_order(c.executors);
    JsonView::Object(
        Map::empty().insert("default"@, JsonView::Text(c.default_executor)).insert(
            "executors"@,
            JsonView::Array(Seq::new(pairs.len(), |i: int| endpoint_json(pairs[i].1))),
        ),
    )
}

/// What the list of executors is answered with; `shown` is the list as text.
pub open spec fn list_result(c: CallerView, shown: Seq<char>) -> ToolResultView {
    ToolResultView { metadata: executors_json(c), output: output_of(""@, shown, ""@) }
}

/// The headers that a transfer is to be asked for with.
pub open spec fn transfer_headers(options: FileTransferView, directory: Option<Seq<char>>) -> Map<
    Seq<char>,
    JsonView,
> {
    let base = Map::empty().insert("X-RE-Path"@, JsonView::Text(options.target_path));
    let placed = match directory {
        Some(d) => base.insert("X-RE-Directory"@, JsonView::Text(d)),
        None => base,
    };
    match options.overwrite {
        Some(b) => placed.insert("X-RE-Overwrite"@, JsonView::Text(flag_text(b))),
        None => placed,
    }
}

/// Why an executor gives no address for a transfer, or the address and how to
/// use it.
pub open spec fn transfer_result(
    e: EndpointView,
    options: FileTransferView,
    directory: Option<Seq<char>>,
) -> Result<ToolResultView, Seq<char>> {
    if !e.file_transfer {
        Err("executor "@ + e.info.id + " does not advertise file transfer support"@)
    } else {
        match transfer_url(e.url) {
            Err(m) => Err(m),
            Ok(url) => {
                let method = match options.mode {
                    FileTransferMode::Download => "GET"@,
                    FileTransferMode::Upload => "PUT"@,
                };
                let mode = match options.mode {
                    FileTransferMode::Download => "download"@,
                    FileTransferMode::Upload => "upload"@,
                };
                let headers = transfer_headers(options, directory);
                Ok(
                    ToolResultView {
                        metadata: JsonView::Object(
                            Map::empty().insert("executor"@, JsonView::Text(e.info.id)).insert(
                                "mode"@,
                                JsonView::Text(mode),
                            ).insert("localPath"@, JsonView::Text(options.local_path)).insert(
                                "targetPath"@,
                                JsonView::Text(options.target_path),
                            ).insert("method"@, JsonView::Text(method)).insert(
                                "url"@,
                                JsonView::Text(url),
                            ).insert("headers"@, JsonView::Object(headers)),
                        ),
                        output: output_of(
                            ""@,
                            method + " "@ + url + (match directory {
                                Some(d) => "\nX-RE-Directory: "@ + d,
                                None => seq![],
                            }) + (match options.overwrite {
                                Some(b) => "\nX-RE-Overwrite: "@ + flag_text(b),
                                None => seq![],
                            }) + "\nX-RE-Path: "@ + options.target_path,
                            ""@,
                        ),
                    },
                )
            },
        }
    }
}

/// What a request for a transfer is answered.
pub open spec fn transfer_response(
    c: CallerView,
    q: ExecutorRequestView,
    options: FileTransferView,
) -> ExecutorResponseView {
    let id = meant_executor(c, q.executor);
    if !c.executors.dom().contains(id) {
        caller_error(q.id, not_found(id))
    } else {
        match transfer_result(c.executors[id], options, q.directory) {
            Err(m) => caller_error(q.id, m),
            Ok(result) => ok_response(q.id, Some("caller"@), result_value(result)),
        }
    }
}

pub open spec fn flag_text(b: bool) -> Seq<char> {
    if b {
        "true"@
    } else {
        "false"@
    }
}

fn flag_name(b: bool) -> (r: &'static str)
    ensures
        r@ == flag_text(b),
{
    if b {
        "true"
    } else {
        "false"
    }
}

impl ExecutorEndpoint {
    /// The address for a transfer, and how to use it.
    pub fn file_transfer_result(
        &self,
        options: &FileTransferOptions,
        directory: Option<&str>,
    ) -> (r: Result<ToolResult, Error>)
        ensures
            match r {
                Ok(t) => transfer_result(self@, options@, str_text(directory)) == Ok::<
                    ToolResultView,
                    Seq<char>,
                >(t@),
                Err(e) => transfer_result(self@, options@, str_text(directory)) == Err::<
                    ToolResultView,
                    Seq<char>,
                >(e@),
            },
    {
        if !self.file_transfer {
            let mut m = owned("executor ");
            m.append(self.info.id.as_str());
            m.append(" does not advertise file transfer support");
            return Err(Error::new(m));
        }
        let url = match http_file_transfer_url(self.url.as_str()) {
            Ok(u) => u,
            Err(e) => {
                return Err(e);
            },
        };
        let (method, mode) = match options.mode {
            FileTransferMode::Download => ("GET", "download"),
            FileTransferMode::Upload => ("PUT", "upload"),
        };
        let mut headers: Vec<(String, Json)> = Vec::new();
        let mut text = owned(method);
        text.append(" ");
        text.append(url.as_str());
        let ghost start = text@;
        put(&mut headers, "X-RE-Path", Json::text(options.target_path.as_str()));
        if let Some(d) = directory {
            put(&mut headers, "X-RE-Directory", Json::text(d));
            let mut line = owned("\nX-RE-Directory: ");
            line.append(d);
            text.append(line.as_str());
        } else {
            proof {
                assert(start + Seq::<char>::empty() =~= start);
            }
        }
        let ghost placed = text@;
        if let Some(b) = options.overwrite {
            put(&mut headers, "X-RE-Overwrite", Json::text(flag_name(b)));
            let mut line = owned("\nX-RE-Overwrite: ");
            line.append(flag_name(b));
            text.append(line.as_str());
        } else {
            proof {
                assert(placed + Seq::<char>::empty() =~= placed);
            }
        }
        text.append("\nX-RE-Path: ");
        text.append(options.target_path.as_str());
        let mut e: Vec<(String, Json)> = Vec::new();
        put(&mut e, "executor", Json::text(self.info.id.as_str()));
        put(&mut e, "mode", Json::text(mode));
        put(&mut e, "localPath", Json::text(options.local_path.as_str()));
        put(&mut e, "targetPath", Json::text(options.target_path.as_str()));
        put(&mut e, "method", Json::text(method));
        put(&mut e, "url", Json::text(url.as_str()));
        put(&mut e, "headers", Json::Object(headers));
        Ok(ToolResult { metadata: Json::Object(e), output: tool_output(text) })
    }
}

/// The response to a request that was forwarded: it says which executor gave it.
pub open spec fn forwarded_response(
    id: JsonView,
    executor: Seq<char>,
    reply: Result<ExecutorResponseView, Seq<char>>,
) -> ExecutorResponseView {
    match reply {
        Ok(response) => ExecutorResponseView {
            executor: match response.executor {
                Some(e) => Some(e),
                None => Some(executor),
            },
            ..response
        },
        Err(m) => err_response(
            id,
            Some(executor),
            "executor "@ + executor + " call failed: "@ + m,
        ),
    }
}

/// Makes the response to a request that was forwarded.
pub fn finish_forward(forward: &Forward, reply: Result<ExecutorResponse, Error>) -> (r:
    ExecutorResponse)
    ensures
        r@ == forwarded_response(forward@.request.id, forward@.executor, reply_view(reply)),
{
    match reply {
        Ok(response) => {
            let executor = match response.executor {
                Some(e) => e,
                None => forward.executor.clone(),
            };
            ExecutorResponse {
                id: response.id,
                ok: response.ok,
                result: response.result,
                error: response.error,
                executor: Some(executor),
            }
        },
        Err(e) => {
            let mut m = owned("executor ");
            m.append(forward.executor.as_str());
            m.append(" call failed: ");
            m.append(e.message.as_str());
            ExecutorResponse::err(forward.request.id.copy(), Some(forward.executor.clone()), m)
        },
    }
}

/// The error where an executor took too long; `id` is the request's id as text.
pub fn timed_out(ms: u64, id: &str) -> (r: Error)
    ensures
        r@ == "executor call timed out after "@ + dec(ms as nat) + "ms for request "@ + id@,
{
    let mut m = owned("executor call timed out after ");
    append_dec(&mut m, ms);
    m.append("ms for request ");
    m.append(id);
    Error::new(m)
}

/// The error where an executor went away; `id` is the request's id as text.
pub fn closed_early(id: &str) -> (r: Error)
    ensures
        r@ == "executor closed before responding to request "@ + id@,
{
    let mut m = owned("executor closed before responding to request ");
    m.append(id);
    Error::new(m)
}

/// A refusal that the caller itself gives.
pub fn refuse(id: &Json, message: &str) -> (r: ExecutorResponse)
    ensures
        r@ == caller_error(id@, message@),
{
    ExecutorResponse::err(id.copy(), Some(owned("caller")), owned(message))
}

/// The refusal of parameters that a tool cannot read.
pub fn refuse_params(id: &Json, tool: &str, fault: &str) -> (r: ExecutorResponse)
    ensures
        r@ == caller_error(id@, "bad "@ + tool@ + " params: "@ + fault@),
{
    let mut m = owned("bad ");
    m.append(tool);
    m.append(" params: ");
    m.append(fault);
    ExecutorResponse::err(id.copy(), Some(owned("caller")), m)
}

/// The refusal of a line that is no request.
pub fn refuse_line(fault: &str) -> (r: ExecutorResponse)
    ensures
        r@ == caller_error(JsonView::Null, "invalid request: "@ + fault@),
{
    let mut m = owned("invalid request: ");
    m.append(fault);
    ExecutorResponse::err(Json::Null, Some(owned("caller")), m)
}

impl Caller {
    /// A caller that knows the executor of its own program, which listens at
    /// `addr`.
    pub fn new(info: ExecutorInfo, addr: &str, version: &str) -> (r: Caller)
        ensures
            r@ == fresh(info@, addr@, version@),
            well_formed(r@),
    {
        let mut url = owned("ws://");
        url.append(addr);
        let endpoint = ExecutorEndpoint {
            info,
            url,
            protocol: Some(owned("remote-executor")),
            version: Some(owned(version)),
            file_transfer: true,
            file_transfer_path: owned("/re-file/v1"),
        };
        Caller {
            default_executor: owned("local"),
            executors: NameTable::new().with(owned("local"), endpoint),
            writing: false,
        }
    }

    /// Lets a request in, unless it writes while another one does.
    pub fn enter(&mut self, method: &str) -> (r: bool)
        ensures
            r == lets_in(old(self)@, method@),
            final(self)@ == entered(old(self)@, method@),
    {
        if !is_write_method(method) {
            return true;
        }
        if self.writing {
            return false;
        }
        self.writing = true;
        true
    }

    /// Notes that a request that was let in is done.
    pub fn leave(&mut self, method: &str)
        ensures
            final(self)@ == left(old(self)@, method@),
    {
        if is_write_method(method) {
            self.writing = false;
        }
    }

    /// The response to a request that was not let in.
    pub fn refuse_write(id: &Json) -> (r: ExecutorResponse)
        ensures
            r@ == caller_error(id@, "another write operation is already running"@),
    {
        refuse(id, "another write operation is already running")
    }

    /// Decides what becomes of a request.
    pub fn handle(&self, request: &ExecutorRequest) -> (r: CallerStep)
        ensures
            r@ == step_for(self@, request@),
    {
        let method = request.method.as_str();
        if same_text(method, "list_executor") {
            return CallerStep::ListExecutors;
        }
        if same_text(method, "connect_to_executor") {
            return CallerStep::Connect;
        }
        if same_text(method, "set_default_executor") {
            return CallerStep::SetDefault;
        }
        if same_text(method, "file_transfer") {
            return CallerStep::FileTransfer;
        }
        let requested = match &request.executor {
            Some(id) => Some(id.as_str()),
            None => None,
        };
        match self.select_executor(requested) {
            Ok(endpoint) => CallerStep::Forward(
                Forward {
                    executor: endpoint.info.id.clone(),
                    url: endpoint.url.clone(),
                    request: copy_stripped(request),
                    timeout_ms: call_timeout_ms_for(request),
                },
            ),
            Err(e) => CallerStep::Answer(refuse(&request.id, e.message.as_str())),
        }
    }

    /// The executor that a request means.
    pub fn select_executor(&self, requested: Option<&str>) -> (r: Result<&ExecutorEndpoint, Error>)
        ensures
            ({
                let id = meant_executor(self@, str_text(requested));
                match r {
                    Ok(e) => self@.executors.dom().contains(id) && self@.executors[id] == e@,
                    Err(e) => !self@.executors.dom().contains(id) && e@ == not_found(id),
                }
            }),
    {
        let id = match requested {
            Some(id) => id,
            None => self.default_executor.as_str(),
        };
        match self.executors.get(id) {
            Some(e) => Ok(e),
            None => {
                let mut m = owned("executor not found: ");
                m.append(id);
                Err(Error::new(m))
            },
        }
    }

    /// Connects an executor under a name, in place of one that had the name. The
    /// reply is the one to `connect_question`.
    pub fn connect_to_executor(
        &mut self,
        options: &ConnectExecutorOptions,
        reply: Result<ExecutorResponse, Error>,
    ) -> (r: Result<(), Error>)
        ensures
            match connected(options@, reply_view(reply)) {
                Ok(endpoint) => r is Ok && final(self)@ == with_executor(
                    old(self)@,
                    options@.id,
                    endpoint,
                ),
                Err(m) => r matches Err(e) && e@ == m && final(self)@ == old(self)@,
            },
            well_formed(old(self)@) ==> well_formed(final(self)@),
    {
        if let Some(e) = check_name(options.id.as_str()) {
            return Err(e);
        }
        let response = match reply {
            Ok(response) => response,
            Err(e) => {
                return Err(e);
            },
        };
        let endpoint = match endpoint_from(options, &response) {
            Ok(endpoint) => endpoint,
            Err(e) => {
                return Err(e);
            },
        };
        let mut executors: NameTable<ExecutorEndpoint> = NameTable::new();
        std::mem::swap(&mut executors, &mut self.executors);
        self.executors = executors.with(options.id.clone(), endpoint);
        Ok(())
    }

    /// Makes an executor the one that is meant where a request names none.
    pub fn set_default_executor(&mut self, id: &str) -> (r: Result<(), Error>)
        ensures
            if old(self)@.executors.dom().contains(id@) {
                r is Ok && final(self)@ == with_default(old(self)@, id@)
            } else {
                r matches Err(e) && e@ == not_found(id@) && final(self)@ == old(self)@
            },
            well_formed(old(self)@) ==> well_formed(final(self)@),
    {
        if self.executors.get(id).is_none() {
            let mut m = owned("executor not found: ");
            m.append(id);
            return Err(Error::new(m));
        }
        self.default_executor = owned(id);
        Ok(())
    }

    pub fn default_executor(&self) -> (r: &str)
        ensures
            r@ == self@.default_executor,
    {
        self.default_executor.as_str()
    }

    /// The executors as a list.
    pub fn list_executors(&self) -> (r: Json)
        ensures
            r@ == executors_json(self@),
    {
        let n: usize = self.executors.len();
        let ghost pairs = self.executors.pairs();
        let ghost shown = |i: int| endpoint_json(pairs[i].1);
        let mut items: Vec<Json> = Vec::new();
        let mut i: usize = 0;
        while i < n
            invariant
                i <= n,
                n == pairs.len(),
                pairs == self.executors.pairs(),
                shown == (|k: int| endpoint_json(pairs[k].1)),
                items_view(items@) == Seq::new(i as nat, shown),
            decreases n - i,
        {
            add_item(&mut items, endpoint_value(self.executors.value_at(i)));
            proof {
                assert(items_view(items@) =~= Seq::new((i + 1) as nat, shown));
            }
            i = i + 1;
        }
        let mut e: Vec<(String, Json)> = Vec::new();
        put(&mut e, "default", Json::text(self.default_executor.as_str()));
        put(&mut e, "executors", Json::Array(items));
        Json::Object(e)
    }

    /// The response with the list of executors.
    pub fn list_response(&self, id: &Json) -> (r: ExecutorResponse)
        ensures
            r@ == ok_response(
                id@,
                Some("caller"@),
                result_value(list_result(self@, pretty(as_sent(executors_json(self@))))),
            ),
    {
        let shown = pretty_text(&self.list_executors());
        self.show_list(id, shown)
    }

    /// The response with the list of executors, which is `shown` as text.
    pub fn show_list(&self, id: &Json, shown: String) -> (r: ExecutorResponse)
        ensures
            r@ == ok_response(id@, Some("caller"@), result_value(list_result(self@, shown@))),
    {
        let result = ToolResult { metadata: self.list_executors(), output: tool_output(shown) };
        ExecutorResponse::ok(id.copy(), Some(owned("caller")), result.into_value())
    }

    /// The response to a request for a transfer.
    pub fn file_transfer_response(
        &self,
        request: &ExecutorRequest,
        options: &FileTransferOptions,
    ) -> (r: ExecutorResponse)
        ensures
            r@ == transfer_response(self@, request@, options@),
    {
        let requested = match &request.executor {
            Some(id) => Some(id.as_str()),
            None => None,
        };
        let directory = match &request.directory {
            Some(d) => Some(d.as_str()),
            None => None,
        };
        match self.select_executor(requested) {
            Err(e) => refuse(&request.id, e.message.as_str()),
            Ok(endpoint) => match endpoint.file_transfer_result(options, directory) {
                Err(e) => refuse(&request.id, e.message.as_str()),
                Ok(result) => ExecutorResponse::ok(
                    request.id.copy(),
                    Some(owned("caller")),
                    result.into_value(),
                ),
            },
        }
    }
}

/// A request that names no executor goes where one goes that names the default
/// one, and a well-formed caller has an executor for it.
pub proof fn lemma_default_is_used(c: CallerView, q: ExecutorRequestView)
    requires
        well_formed(c),
        q.executor is None,
    ensures
        step_for(c, q) == step_for(
            c,
            ExecutorRequestView { executor: Some(c.default_executor), ..q },
        ),
        step_for(c, q) !is Answer,
{
}

/// No reply of an executor takes the place of the program's own executor.
pub proof fn lemma_local_is_reserved(
    options: ConnectView,
    reply: Result<ExecutorResponseView, Seq<char>>,
)
    requires
        options.id == "local"@,
    ensures
        connected(options, reply) is Err,
{
}

} // verus!
