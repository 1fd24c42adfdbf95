//! What the caller does with requests and executors, stated over what goes in and what
//! comes out.

use crate::caller::{
    call_limit, connected, endpoint_json, entered, executors_json, forwarded_response, fresh,
    info_request, introduced, left, lets_in, list_result, name_fault, step_for, transfer_response,
    transfer_result, transfer_url, with_default, with_executor, writes, ws_url, CallerStepView,
    CallerView, ConnectView, EndpointView, FileTransferView,
};
use crate::executor::{tool_named, Tool};
use crate::json::{field, signed_of, text_at, unsigned_of, JsonView};
use crate::protocol::{
    lemma_output_shows, lemma_result_value_shows, ExecutorInfoView, ExecutorRequestView,
    ExecutorResponseView,
};
use crate::table::{in_name_order, is_table, lemma_name_order_has_all};
use crate::text::split::{starts, trim};
use vstd::prelude::*;

verus! {

// ---------------------------------------------------------------------------
// Requests
// ---------------------------------------------------------------------------
/// The name of the executor that a request is for: the one that it names, else the
/// default one.
pub open spec fn named_executor(c: CallerView, q: ExecutorRequestView) -> Seq<char> {
    if q.executor is Some {
        q.executor->Some_0
    } else {
        c.default_executor
    }
}

/// Whether a request is about the caller itself.
pub open spec fn is_own(method: Seq<char>) -> bool {
    method == "list_executor"@ || method == "connect_to_executor"@ || method
        == "set_default_executor"@ || method == "file_transfer"@
}

/// A request that is passed on goes to the address of the executor that it is for, and
/// agrees with the one that the caller got in its id, its method, all of its parameters,
/// its directory and its time limit; only the name of the executor is taken out.
pub proof fn lemma_request_is_passed_on_whole(c: CallerView, q: ExecutorRequestView)
    requires
        !is_own(q.method),
        c.executors.dom().contains(named_executor(c, q)),
    ensures
        ({
            let e = c.executors[named_executor(c, q)];
            &&& step_for(c, q) matches CallerStepView::Forward(f)
            &&& f.url == e.url
            &&& f.executor == e.info.id
            &&& f.request.id == q.id
            &&& f.request.method == q.method
            &&& f.request.params == q.params
            &&& f.request.directory == q.directory
            &&& f.request.tool_timeout_ms == q.tool_timeout_ms
            &&& f.request.executor is None
            &&& f.timeout_ms == call_limit(q.method, q.params)
        }),
{
}

/// A request for an executor that is not known is answered with an error that names it
/// and bears the id of the request. Nothing is passed on.
pub proof fn lemma_unknown_executor_is_refused(c: CallerView, q: ExecutorRequestView)
    requires
        !is_own(q.method),
        !c.executors.dom().contains(named_executor(c, q)),
    ensures
        ({
            &&& step_for(c, q) matches CallerStepView::Answer(a)
            &&& a.id == q.id
            &&& !a.ok
            &&& a.result is None
            &&& a.error == Some("executor not found: "@ + named_executor(c, q))
            &&& a.executor == Some("caller"@)
        }),
{
}

/// What is about the caller itself stays with it, each request as what it is.
pub proof fn lemma_own_requests_are_told_apart(c: CallerView, q: ExecutorRequestView)
    ensures
        step_for(c, q) is ListExecutors <==> q.method == "list_executor"@,
        step_for(c, q) is Connect <==> q.method == "connect_to_executor"@,
        step_for(c, q) is SetDefault <==> q.method == "set_default_executor"@,
        step_for(c, q) is FileTransfer <==> q.method == "file_transfer"@,
{
    reveal_strlit("list_executor");
    reveal_strlit("connect_to_executor");
    reveal_strlit("set_default_executor");
    reveal_strlit("file_transfer");
    assert("list_executor"@.len() == 13 && "connect_to_executor"@.len() == 19
        && "set_default_executor"@.len() == 20 && "file_transfer"@.len() == 13);
    assert("list_executor"@[0] == 'l' && "file_transfer"@[0] == 'f');
}

/// A response of an executor comes back as it is, and says which executor gave it; where
/// there is no response, the error bears the id of the request.
pub proof fn lemma_response_comes_back(
    id: JsonView,
    executor: Seq<char>,
    reply: Result<ExecutorResponseView, Seq<char>>,
)
    ensures
        ({
            let r = forwarded_response(id, executor, reply);
            &&& reply matches Ok(a) ==> r.id == a.id && r.ok == a.ok && r.result == a.result
                && r.error == a.error && (a.executor is Some ==> r.executor == a.executor) && (
            a.executor is None ==> r.executor == Some(executor))
            &&& reply matches Err(m) ==> r.id == id && !r.ok && r.result is None && r.executor
                == Some(executor) && r.error == Some(
                "executor "@ + executor + " call failed: "@ + m,
            )
        }),
{
}

/// A call may take as long as the tool may, and five seconds more. A tool that runs
/// commands or searches names its time itself, ten seconds where it does not; a search
/// may ask for no limit; every other tool has thirty seconds.
pub proof fn lemma_call_limits(method: Seq<char>, params: JsonView)
    ensures
        ({
            let limit = call_limit(method, params);
            let read = field(params, "read_timeout"@);
            let search = field(params, "timeout"@);
            &&& method == "exbash"@ && (read is None || unsigned_of(read->Some_0) is None) ==> limit
                == Some(15_000u64)
            &&& method == "exbash"@ && read is Some && (unsigned_of(read->Some_0) matches Some(n)
                && n <= u64::MAX - 5_000) ==> limit == Some(
                (unsigned_of(read->Some_0)->Some_0 + 5_000) as u64,
            )
            &&& (method == "rg"@ || method == "glob"@) && (search is None || signed_of(
                search->Some_0,
            ) is None) ==> limit == Some(15_000u64)
            &&& (method == "rg"@ || method == "glob"@) && search is Some && (signed_of(
                search->Some_0,
            ) matches Some(n) && n == -1) ==> limit is None
            &&& (method == "rg"@ || method == "glob"@) && search is Some && (signed_of(
                search->Some_0,
            ) matches Some(n) && n >= 0) ==> limit == Some(
                (signed_of(search->Some_0)->Some_0 + 5_000) as u64,
            )
            &&& method != "exbash"@ && method != "rg"@ && method != "glob"@ ==> limit == Some(
                30_000u64,
            )
        }),
{
    reveal_strlit("exbash");
    reveal_strlit("rg");
    reveal_strlit("glob");
    assert("exbash"@.len() == 6 && "rg"@.len() == 2 && "glob"@.len() == 4);
}

/// Of the tools of an executor those write that act on files or set the default shell.
pub proof fn lemma_who_writes(method: Seq<char>)
    ensures
        tool_named(method) is Some ==> (writes(method) <==> tool_named(method) == Some(
            Tool::FileAction,
        ) || tool_named(method) == Some(Tool::SetDefaultShell)),
{
    reveal_strlit("exbash");
    reveal_strlit("read");
    reveal_strlit("stat");
    reveal_strlit("FileAction");
    reveal_strlit("glob");
    reveal_strlit("set_default_shell");
    reveal_strlit("list_shells");
    reveal_strlit("rg");
    reveal_strlit("_executor_info");
    assert("exbash"@.len() == 6 && "read"@.len() == 4 && "stat"@.len() == 4 && "FileAction"@.len()
        == 10 && "glob"@.len() == 4 && "set_default_shell"@.len() == 17 && "list_shells"@.len()
        == 11 && "rg"@.len() == 2 && "_executor_info"@.len() == 14);
}

/// A request that writes keeps another one that writes out until it is done, and nothing
/// else; one that only reads keeps nothing out.
pub proof fn lemma_reading_keeps_nothing_out(
    c: CallerView,
    first: Seq<char>,
    next: Seq<char>,
)
    ensures
        !writes(first) ==> lets_in(entered(c, first), next) == lets_in(c, next),
        !writes(next) ==> lets_in(c, next),
        writes(first) && writes(next) ==> !lets_in(entered(c, first), next),
        lets_in(c, first) ==> lets_in(left(entered(c, first), first), next) == lets_in(c, next)
            || writes(first),
        entered(c, first).executors == c.executors && left(c, first).executors == c.executors,
        entered(c, first).default_executor == c.default_executor && left(c, first).default_executor
            == c.default_executor,
{
}

// ---------------------------------------------------------------------------
// Executors
// ---------------------------------------------------------------------------
/// A caller starts with the executor of its own program, at the address at which that
/// listens, and means it where a request names none.
pub proof fn lemma_fresh_caller_has_its_own(
    info: ExecutorInfoView,
    addr: Seq<char>,
    version: Seq<char>,
    q: ExecutorRequestView,
)
    requires
        !is_own(q.method),
        q.executor is None || q.executor == Some("local"@),
    ensures
        ({
            let c = fresh(info, addr, version);
            &&& step_for(c, q) matches CallerStepView::Forward(f)
            &&& f.url == "ws://"@ + addr
            &&& f.executor == info.id
            &&& c.executors["local"@].version == Some(version)
            &&& c.executors["local"@].info == info
            &&& c.executors["local"@].file_transfer
            &&& c.executors["local"@].file_transfer_path == "/re-file/v1"@
            &&& c.executors["local"@].protocol == Some("remote-executor"@)
            &&& c.executors["local"@].url == "ws://"@ + addr
            &&& lets_in(c, q.method)
        }),
{
}

/// Once an executor is connected, requests that name it go to its address; requests that
/// name others go where they went, and the default stays.
pub proof fn lemma_connected_executor_is_reached(
    c: CallerView,
    options: ConnectView,
    reply: Result<ExecutorResponseView, Seq<char>>,
    q: ExecutorRequestView,
)
    requires
        connected(options, reply) is Ok,
        !is_own(q.method),
    ensures
        ({
            let now = with_executor(c, options.id, connected(options, reply)->Ok_0);
            &&& q.executor == Some(options.id) ==> (step_for(now, q) matches CallerStepView::Forward(
                f,
            ) && f.url == ws_url(options.url) && f.executor == options.id && f.request.params
                == q.params)
            &&& q.executor is Some && q.executor != Some(options.id) ==> step_for(now, q)
                == step_for(c, q)
            &&& now.default_executor == c.default_executor
            &&& now.writing == c.writing
        }),
{
}

/// Once an executor is the default one, requests that name none go where those go that
/// name it; requests that name one go where they went.
pub proof fn lemma_default_is_changed(c: CallerView, id: Seq<char>, q: ExecutorRequestView)
    ensures
        ({
            let now = with_default(c, id);
            &&& q.executor is None ==> step_for(now, q) == step_for(
                c,
                ExecutorRequestView { executor: Some(id), ..q },
            )
            &&& q.executor is Some ==> step_for(now, q) == step_for(c, q)
            &&& now.executors == c.executors
            &&& now.writing == c.writing
        }),
{
}

/// A name that is blank or that of the program's own executor cannot be taken; any other
/// can.
pub proof fn lemma_names_that_are_refused(id: Seq<char>)
    ensures
        name_fault(id) is Some <==> trim(id).len() == 0 || id == "local"@,
{
}

/// An executor is known by the name and the address that it was connected with. What the
/// request says of its system, its device and its labels counts, and else what the
/// executor says.
pub proof fn lemma_request_counts_over_answer(options: ConnectView, metadata: JsonView)
    requires
        introduced(options, metadata) is Ok,
    ensures
        ({
            let e = introduced(options, metadata)->Ok_0;
            &&& e.info.id == options.id
            &&& e.url == ws_url(options.url)
            &&& options.system is Some ==> e.info.system == options.system
            &&& options.system is None ==> e.info.system == text_at(metadata, "system"@)
            &&& options.device is Some ==> e.info.device == options.device
            &&& options.device is None ==> e.info.device == text_at(metadata, "device"@)
            &&& options.labels != Map::<Seq<char>, Seq<char>>::empty() ==> e.info.labels
                == options.labels
            &&& options.labels == Map::<Seq<char>, Seq<char>>::empty() ==> forall|k: Seq<char>|
                #[trigger] e.info.labels.dom().contains(k) ==> (field(metadata, "labels"@) matches Some(
                    l,
                ) && text_at(l, k) == Some(e.info.labels[k]))
            &&& options.labels == Map::<Seq<char>, Seq<char>>::empty() ==> (field(
                metadata,
                "labels"@,
            ) matches Some(l) ==> forall|k: Seq<char>| #[trigger]
                text_at(l, k) is Some ==> e.info.labels.dom().contains(k))
            &&& e.version == text_at(metadata, "version"@)
            &&& e.version is Some && trim(e.version->Some_0).len() > 0
            &&& e.protocol == text_at(metadata, "protocol"@)
            &&& e.file_transfer <==> (field(metadata, "capabilities"@) matches Some(c) && field(
                c,
                "fileTransfer"@,
            ) == Some(JsonView::Bool(true)))
            &&& text_at(metadata, "fileTransferPath"@) is None ==> e.file_transfer_path
                == "/re-file/v1"@
            &&& text_at(metadata, "fileTransferPath"@) matches Some(p) ==> e.file_transfer_path == (
            if trim(p).len() > 0 {
                p
            } else {
                "/re-file/v1"@
            })
        }),
{
}

/// An executor is connected exactly where it tells its version and what it can do.
pub proof fn lemma_executor_has_to_answer(options: ConnectView, metadata: JsonView)
    ensures
        introduced(options, metadata) is Ok <==> (text_at(metadata, "version"@) matches Some(v)
            && trim(v).len() > 0) && (field(metadata, "capabilities"@) matches Some(
            JsonView::Object(_),
        )),
{
}

/// An address has a scheme once it is known: its own, or that of plain connections. It
/// stays as it is from there on.
pub proof fn lemma_address_has_a_scheme(url: Seq<char>)
    ensures
        starts(ws_url(url), "ws://"@) || starts(ws_url(url), "wss://"@),
        ws_url(ws_url(url)) == ws_url(url),
        starts(url, "ws://"@) || starts(url, "wss://"@) ==> ws_url(url) == url,
        !starts(url, "ws://"@) && !starts(url, "wss://"@) ==> ws_url(url) == "ws://"@ + url,
{
    let w = "ws://"@ + url;
    assert(w.take("ws://"@.len() as int) =~= "ws://"@);
}

/// Transfers go to the host of the executor, over plain HTTP where its connection is
/// plain and over HTTPS where it is not.
pub proof fn lemma_transfers_go_to_the_host(host: Seq<char>)
    ensures
        transfer_url("ws://"@ + host) == Ok::<Seq<char>, Seq<char>>(
            "http://"@ + host + "/re-file/v1"@,
        ),
        transfer_url("wss://"@ + host) == Ok::<Seq<char>, Seq<char>>(
            "https://"@ + host + "/re-file/v1"@,
        ),
{
    reveal_strlit("ws://");
    reveal_strlit("wss://");
    let (a, b) = ("ws://"@ + host, "wss://"@ + host);
    assert(a.take("ws://"@.len() as int) =~= "ws://"@);
    assert(b.take("wss://"@.len() as int) =~= "wss://"@);
    assert(a.skip("ws://"@.len() as int) =~= host);
    assert(b.skip("wss://"@.len() as int) =~= host);
    assert(b[2] == 's' && "ws://"@[2] == ':');
    if starts(b, "ws://"@) {
        assert(b.take("ws://"@.len() as int)[2] == b[2]);
    }
}

/// An executor is asked who it is, and nothing else, before it is connected.
pub proof fn lemma_executor_is_asked_who_it_is()
    ensures
        tool_named(info_request().method) == Some(Tool::ExecutorInfo),
        info_request().executor is None,
        info_request().directory is None,
        field(info_request().params, "timeout"@) is None,
{
    reveal_strlit("exbash");
    reveal_strlit("read");
    reveal_strlit("stat");
    reveal_strlit("FileAction");
    reveal_strlit("glob");
    reveal_strlit("set_default_shell");
    reveal_strlit("list_shells");
    reveal_strlit("rg");
    reveal_strlit("_executor_info");
    assert("exbash"@.len() == 6 && "read"@.len() == 4 && "stat"@.len() == 4 && "FileAction"@.len()
        == 10 && "glob"@.len() == 4 && "set_default_shell"@.len() == 17 && "list_shells"@.len()
        == 11 && "rg"@.len() == 2 && "_executor_info"@.len() == 14);
}

proof fn lemma_endpoint_names_differ()
    ensures
        "id"@.len() == 2,
        "system"@.len() == 6,
        "device"@.len() == 6,
        "labels"@.len() == 6,
        "url"@.len() == 3,
        "protocol"@.len() == 8,
        "version"@.len() == 7,
        "fileTransfer"@.len() == 12,
        "fileTransferPath"@.len() == 16,
        "system"@[0] == 's',
        "device"@[0] == 'd',
        "labels"@[0] == 'l',
{
    reveal_strlit("id");
    reveal_strlit("system");
    reveal_strlit("device");
    reveal_strlit("labels");
    reveal_strlit("url");
    reveal_strlit("protocol");
    reveal_strlit("version");
    reveal_strlit("fileTransfer");
    reveal_strlit("fileTransferPath");
}

/// An executor is told of with its name, its address, what is known of its machine, its
/// labels, and how it takes transfers.
pub proof fn lemma_executor_is_told_of(e: EndpointView)
    ensures
        ({
            let j = endpoint_json(e);
            &&& text_at(j, "id"@) == Some(e.info.id)
            &&& text_at(j, "url"@) == Some(e.url)
            &&& text_at(j, "system"@) == e.info.system
            &&& text_at(j, "device"@) == e.info.device
            &&& text_at(j, "protocol"@) == e.protocol
            &&& text_at(j, "version"@) == e.version
            &&& text_at(j, "fileTransferPath"@) == Some(e.file_transfer_path)
            &&& field(j, "fileTransfer"@) == Some(JsonView::Bool(e.file_transfer))
            &&& forall|k: Seq<char>| #[trigger]
                e.info.labels.dom().contains(k) ==> field(j, "labels"@) is Some && text_at(
                    field(j, "labels"@)->Some_0,
                    k,
                ) == Some(e.info.labels[k])
            &&& forall|k: Seq<char>|
                !(#[trigger] e.info.labels.dom().contains(k)) ==> field(j, "labels"@) is Some
                    && field(field(j, "labels"@)->Some_0, k) is None
        }),
{
    lemma_endpoint_names_differ();
}

/// The items of a list that stands under a key.
pub open spec fn items_at(j: JsonView, key: Seq<char>) -> Seq<JsonView> {
    match field(j, key) {
        Some(JsonView::Array(items)) => items,
        _ => seq![],
    }
}

/// Whether a list has what is told of an executor.
pub open spec fn lists(items: Seq<JsonView>, e: EndpointView) -> bool {
    exists|i: int| 0 <= i < items.len() && #[trigger] items[i] == endpoint_json(e)
}

/// Whether one of the executors of a caller is told of so.
pub open spec fn is_told_of(c: CallerView, item: JsonView) -> bool {
    exists|id: Seq<char>| #[trigger]
        c.executors.dom().contains(id) && item == endpoint_json(c.executors[id])
}

proof fn lemma_listed(c: CallerView)
    requires
        is_table(c.executors),
    ensures
        ({
            let pairs = in_name_order(c.executors);
            items_at(executors_json(c), "executors"@) == Seq::new(
                pairs.len(),
                |i: int| endpoint_json(pairs[i].1),
            )
        }),
        text_at(executors_json(c), "default"@) == Some(c.default_executor),
{
    reveal_strlit("default");
    reveal_strlit("executors");
    assert("default"@.len() == 7 && "executors"@.len() == 9);
}

/// The list of executors has every executor that the caller knows and no other, in the
/// order of their names, and tells the default one.
pub proof fn lemma_list_has_every_executor(c: CallerView, shown: Seq<char>)
    requires
        is_table(c.executors),
    ensures
        ({
            let r = list_result(c, shown);
            let items = items_at(r.metadata, "executors"@);
            &&& text_at(r.metadata, "default"@) == Some(c.default_executor)
            &&& field(r.output, "text"@) == Some(JsonView::Text(shown))
            &&& forall|id: Seq<char>| #[trigger]
                c.executors.dom().contains(id) ==> lists(items, c.executors[id])
            &&& forall|i: int| 0 <= i < items.len() ==> is_told_of(c, #[trigger] items[i])
        }),
{
    lemma_output_shows(""@, shown, ""@);
    lemma_listed(c);
    lemma_name_order_has_all(c.executors);
    let pairs = in_name_order(c.executors);
    let items = items_at(executors_json(c), "executors"@);
    assert forall|id: Seq<char>| #[trigger] c.executors.dom().contains(id) implies lists(
        items,
        c.executors[id],
    ) by {
        let i = choose|i: int| 0 <= i < pairs.len() && #[trigger] pairs[i] == (id, c.executors[id]);
        assert(items[i] == endpoint_json(c.executors[id]));
    }
    assert forall|i: int| 0 <= i < items.len() implies is_told_of(c, #[trigger] items[i]) by {
        let id = pairs[i].0;
        assert(c.executors.dom().contains(id));
    }
}

// ---------------------------------------------------------------------------
// Transfers
// ---------------------------------------------------------------------------
proof fn lemma_transfer_names_differ()
    ensures
        "executor"@.len() == 8,
        "mode"@.len() == 4,
        "localPath"@.len() == 9,
        "targetPath"@.len() == 10,
        "method"@.len() == 6,
        "url"@.len() == 3,
        "headers"@.len() == 7,
        "X-RE-Path"@.len() == 9,
        "X-RE-Directory"@.len() == 14,
        "X-RE-Overwrite"@.len() == 14,
        "X-RE-Directory"@[5] == 'D',
        "X-RE-Overwrite"@[5] == 'O',
{
    reveal_strlit("executor");
    reveal_strlit("mode");
    reveal_strlit("localPath");
    reveal_strlit("targetPath");
    reveal_strlit("method");
    reveal_strlit("url");
    reveal_strlit("headers");
    reveal_strlit("X-RE-Path");
    reveal_strlit("X-RE-Directory");
    reveal_strlit("X-RE-Overwrite");
}

/// A transfer is told the address of the executor, the method for its direction, both
/// paths, and headers with the path, the directory and whether to overwrite, the last two
/// where they are given. An executor that takes no transfers gives no address.
pub proof fn lemma_transfer_is_told(
    e: EndpointView,
    options: FileTransferView,
    directory: Option<Seq<char>>,
)
    ensures
        transfer_result(e, options, directory) is Ok <==> e.file_transfer && transfer_url(e.url) is Ok,
        transfer_result(e, options, directory) matches Ok(r) ==> {
            let h = field(r.metadata, "headers"@);
            &&& text_at(r.metadata, "executor"@) == Some(e.info.id)
            &&& text_at(r.metadata, "url"@) == Some(transfer_url(e.url)->Ok_0)
            &&& text_at(r.metadata, "localPath"@) == Some(options.local_path)
            &&& text_at(r.metadata, "targetPath"@) == Some(options.target_path)
            &&& options.mode is Download ==> text_at(r.metadata, "method"@) == Some("GET"@)
                && text_at(r.metadata, "mode"@) == Some("download"@)
            &&& options.mode is Upload ==> text_at(r.metadata, "method"@) == Some("PUT"@)
                && text_at(r.metadata, "mode"@) == Some("upload"@)
            &&& h is Some
            &&& text_at(h->Some_0, "X-RE-Path"@) == Some(options.target_path)
            &&& text_at(h->Some_0, "X-RE-Directory"@) == directory
            &&& options.overwrite is None ==> field(h->Some_0, "X-RE-Overwrite"@) is None
            &&& options.overwrite == Some(true) ==> text_at(h->Some_0, "X-RE-Overwrite"@) == Some(
                "true"@,
            )
            &&& options.overwrite == Some(false) ==> text_at(h->Some_0, "X-RE-Overwrite"@) == Some(
                "false"@,
            )
        },
{
    lemma_transfer_names_differ();
}

/// A request for a transfer is answered for the executor that it is for, with the id of
/// the request and its directory.
pub proof fn lemma_transfer_is_answered(
    c: CallerView,
    q: ExecutorRequestView,
    options: FileTransferView,
)
    ensures
        ({
            let a = transfer_response(c, q, options);
            let id = named_executor(c, q);
            &&& a.id == q.id
            &&& a.executor == Some("caller"@)
            &&& a.ok <==> c.executors.dom().contains(id) && transfer_result(
                c.executors[id],
                options,
                q.directory,
            ) is Ok
            &&& a.ok ==> a.result is Some && field(a.result->Some_0, "metadata"@) == Some(
                transfer_result(c.executors[id], options, q.directory)->Ok_0.metadata,
            )
            &&& a.ok <==> a.error is None
        }),
{
    let id = named_executor(c, q);
    if c.executors.dom().contains(id) {
        if let Ok(r) = transfer_result(c.executors[id], options, q.directory) {
            lemma_result_value_shows(r);
        }
    }
}

} // verus!
