//! Command control for callers that show titles: every answer has one, and a run
//! must be stopped before it is removed.

pub mod laws;

use crate::bytes::{lossy, lossy_text};
use crate::error::Error;
use crate::json::value::{as_sent, pretty, pretty_text};
use crate::json::{put, Json, JsonView};
use crate::patch::apply::{TitledResult, TitledResultView};
use crate::protocol::str_text;
use crate::settings::store::{CommandLine, CommandView};
use crate::text::width::{cut, cut_text};
use crate::text::{chars_of, lemma_views_push, owned, same_text, views};
use crate::tools::exbash::attach::shown_since;
use crate::tools::exbash::run::{
    detail_entries, exbash_run_detail, exit_json, exit_value, runs_json, runs_value, unsigned_json,
    ExitView, RunDetail, RunView, OUTPUT_LIMIT,
};
use vstd::prelude::*;

verus! {

broadcast use lemma_views_push;

/// How long a run is waited for where a request does not say.
pub const ASYNC_TIMEOUT: u64 = 10_000;

/// How long a run is waited for.
pub fn wait_ms(async_timeout: Option<u64>) -> (r: u64)
    ensures
        r == match async_timeout {
            Some(ms) => ms,
            None => ASYNC_TIMEOUT,
        },
{
    match async_timeout {
        Some(ms) => ms,
        None => ASYNC_TIMEOUT,
    }
}

/// What a request asks for.
#[derive(Clone, Copy, Debug, PartialEq, Eq, Structural)]
pub enum ExecMode {
    TimeoutAsync,
    Async,
    List,
    Attach,
    Stop,
    Remove,
}

/// What a mode's name means; without one a command is run and waited for.
pub open spec fn mode_named(mode: Option<Seq<char>>) -> Result<ExecMode, Seq<char>> {
    match mode {
        None => Ok(ExecMode::TimeoutAsync),
        Some(name) => if name == "exec_timeout_async"@ {
            Ok(ExecMode::TimeoutAsync)
        } else if name == "exec_async"@ {
            Ok(ExecMode::Async)
        } else if name == "list"@ {
            Ok(ExecMode::List)
        } else if name == "attach"@ {
            Ok(ExecMode::Attach)
        } else if name == "exbash_stop"@ || name == "stop"@ {
            Ok(ExecMode::Stop)
        } else if name == "exbash_remove"@ || name == "exbasp_remove"@ || name == "remove"@ {
            Ok(ExecMode::Remove)
        } else {
            Err("unknown exbash mode: "@ + name)
        },
    }
}

pub fn exec_mode(mode: Option<&str>) -> (r: Result<ExecMode, Error>)
    ensures
        match r {
            Ok(m) => mode_named(str_text(mode)) == Ok::<ExecMode, Seq<char>>(m),
            Err(e) => mode_named(str_text(mode)) == Err::<ExecMode, Seq<char>>(e@),
        },
{
    let name = match mode {
        Some(name) => name,
        None => {
            return Ok(ExecMode::TimeoutAsync);
        },
    };
    if same_text(name, "exec_timeout_async") {
        Ok(ExecMode::TimeoutAsync)
    } else if same_text(name, "exec_async") {
        Ok(ExecMode::Async)
    } else if same_text(name, "list") {
        Ok(ExecMode::List)
    } else if same_text(name, "attach") {
        Ok(ExecMode::Attach)
    } else if same_text(name, "exbash_stop") || same_text(name, "stop") {
        Ok(ExecMode::Stop)
    } else if same_text(name, "exbash_remove") || same_text(name, "exbasp_remove") || same_text(
        name,
        "remove",
    ) {
        Ok(ExecMode::Remove)
    } else {
        let mut m = owned("unknown exbash mode: ");
        m.append(name);
        Err(Error::new(m))
    }
}

/// How a command is started through the shell of the system.
pub open spec fn shell_run(command: Seq<char>, cwd: Seq<char>, windows: bool) -> CommandView {
    if windows {
        CommandView {
            program: "powershell.exe"@,
            args: seq!["-NoLogo"@, "-NoProfile"@, "-NonInteractive"@, "-Command"@, command],
            cwd: Some(cwd),
        }
    } else {
        CommandView { program: "sh"@, args: seq!["-c"@, command], cwd: Some(cwd) }
    }
}

fn add_arg(args: &mut Vec<String>, arg: &str)
    ensures
        views(final(args)@) == views(old(args)@).push(arg@),
{
    args.push(owned(arg));
}

pub fn shell_command_spec(command: &str, cwd: &str, windows: bool) -> (r: CommandLine)
    ensures
        r@ == shell_run(command@, cwd@, windows),
{
    let mut args: Vec<String> = Vec::new();
    if windows {
        add_arg(&mut args, "-NoLogo");
        add_arg(&mut args, "-NoProfile");
        add_arg(&mut args, "-NonInteractive");
        add_arg(&mut args, "-Command");
        add_arg(&mut args, command);
        CommandLine { program: owned("powershell.exe"), args, cwd: Some(owned(cwd)) }
    } else {
        add_arg(&mut args, "-c");
        add_arg(&mut args, command);
        CommandLine { program: owned("sh"), args, cwd: Some(owned(cwd)) }
    }
}

/// Checks that a run may be removed.
pub fn check_removal(d: &RunDetail) -> (r: Result<(), Error>)
    ensures
        match r {
            Ok(()) => d@.exit_code is Some,
            Err(e) => d@.exit_code is None && e@ == "Async run "@ + d@.async_id
                + " must be stopped before removal"@,
        },
{
    match &d.exit_code {
        Some(_) => Ok(()),
        None => {
            let mut m = owned("Async run ");
            m.append(d.async_id.as_str());
            m.append(" must be stopped before removal");
            Err(Error::new(m))
        },
    }
}

/// Checks that a run can be typed into.
pub fn check_attach(d: &RunDetail) -> (r: Result<(), Error>)
    ensures
        match r {
            Ok(()) => d@.exit_code is None,
            Err(e) => d@.exit_code is Some && e@ == "Async run "@ + d@.async_id
                + " is not running"@,
        },
{
    match &d.exit_code {
        None => Ok(()),
        Some(_) => {
            let mut m = owned("Async run ");
            m.append(d.async_id.as_str());
            m.append(" is not running");
            Err(Error::new(m))
        },
    }
}

/// A run that ended while it was waited for.
pub open spec fn finished(
    description: Seq<char>,
    output: Seq<char>,
    exit: Option<ExitView>,
) -> TitledResultView {
    TitledResultView {
        title: description,
        metadata: JsonView::Object(
            Map::empty().insert(
                "output"@,
                JsonView::Text(cut_text(output, OUTPUT_LIMIT as int, "\n\n..."@)),
            ).insert(
                "exit"@,
                match exit {
                    Some(e) => exit_json(e),
                    None => JsonView::Null,
                },
            ).insert("description"@, JsonView::Text(description)),
        ),
        output,
    }
}

/// Tells of a run that ended while it was waited for; `bytes` is what it put out.
pub fn finished_result(d: &RunDetail, bytes: &[u8]) -> (r: TitledResult)
    ensures
        r@ == finished(d@.description, lossy_text(bytes@), d@.exit_code),
{
    show_finished(d, lossy(bytes))
}

/// Tells of a run that ended while it was waited for and put out this text.
pub fn show_finished(d: &RunDetail, output: String) -> (r: TitledResult)
    ensures
        r@ == finished(d@.description, output@, d@.exit_code),
{
    let all = chars_of(output.as_str());
    let clipped = cut(all.as_slice(), OUTPUT_LIMIT, "\n\n...");
    let mut e: Vec<(String, Json)> = Vec::new();
    put(&mut e, "output", Json::Text(clipped));
    put(
        &mut e,
        "exit",
        match &d.exit_code {
            Some(exit) => exit_value(exit),
            None => Json::Null,
        },
    );
    put(&mut e, "description", Json::text(d.description.as_str()));
    TitledResult { title: d.description.clone(), metadata: Json::Object(e), output }
}

/// What is known of a run that goes on after the call returns.
pub open spec fn detached_entries(d: RunView, async_timeout: u64) -> JsonView {
    JsonView::Object(
        detail_entries(d).insert("detached"@, JsonView::Bool(true)).insert(
            "asyncTimeout"@,
            unsigned_json(async_timeout as nat),
        ),
    )
}

pub fn detached_value(d: &RunDetail, async_timeout: u64) -> (r: Json)
    ensures
        r@ == detached_entries(d@, async_timeout),
{
    let mut value = exbash_run_detail(d);
    if let Json::Object(entries) = value {
        let mut entries = entries;
        put(&mut entries, "detached", Json::Bool(true));
        put(&mut entries, "asyncTimeout", Json::count(async_timeout));
        value = Json::Object(entries);
    }
    value
}

/// What is said of a run that was removed.
pub open spec fn removed_json(id: Seq<char>) -> JsonView {
    JsonView::Object(
        Map::empty().insert("asyncID"@, JsonView::Text(id)).insert(
            "removed"@,
            JsonView::Bool(true),
        ),
    )
}

pub fn removed_value(id: &str) -> (r: Json)
    ensures
        r@ == removed_json(id@),
{
    let mut e: Vec<(String, Json)> = Vec::new();
    put(&mut e, "asyncID", Json::text(id));
    put(&mut e, "removed", Json::Bool(true));
    Json::Object(e)
}

/// A titled answer that shows a value; `shown` is the value as text.
pub open spec fn titled(title: Seq<char>, value: JsonView, shown: Seq<char>) -> TitledResultView {
    TitledResultView { title, metadata: value, output: shown }
}

/// A titled answer that shows a value as people like to read it.
pub open spec fn titled_value(title: Seq<char>, value: JsonView) -> TitledResultView {
    titled(title, value, pretty(as_sent(value)))
}

fn show_value(title: String, value: Json) -> (r: TitledResult)
    ensures
        r@ == titled_value(title@, value@),
{
    let output = pretty_text(&value);
    TitledResult { title, metadata: value, output }
}

/// The answer about a run that was only started; `shown` is the run as text.
pub fn started_result(d: &RunDetail, shown: String) -> (r: TitledResult)
    ensures
        r@ == titled(d@.description, JsonView::Object(detail_entries(d@)), shown@),
{
    TitledResult {
        title: d.description.clone(),
        metadata: exbash_run_detail(d),
        output: shown,
    }
}

/// The answer about a run that goes on after the call returns.
pub fn detached_result(d: &RunDetail, async_timeout: u64) -> (r: TitledResult)
    ensures
        r@ == titled_value(d@.description, detached_entries(d@, async_timeout)),
{
    show_value(d.description.clone(), detached_value(d, async_timeout))
}

/// The answer with the runs that there are.
pub fn listed_result(runs: &[RunDetail]) -> (r: TitledResult)
    ensures
        r@ == titled_value("Async runs listed"@, runs_json(views(runs@))),
{
    show_value(owned("Async runs listed"), runs_value(runs))
}

/// The answer about a run that was stopped; `shown` is the run as text.
pub fn stopped_result(d: &RunDetail, shown: String) -> (r: TitledResult)
    ensures
        r@ == titled("Async run stopped"@, JsonView::Object(detail_entries(d@)), shown@),
{
    TitledResult {
        title: owned("Async run stopped"),
        metadata: exbash_run_detail(d),
        output: shown,
    }
}

/// The answer about a run that was removed.
pub fn removed_result(id: &str) -> (r: TitledResult)
    ensures
        r@ == titled_value("Async run removed"@, removed_json(id@)),
{
    show_value(owned("Async run removed"), removed_value(id))
}

/// What is said of bytes that were typed into a run.
pub open spec fn sent_json(
    id: Seq<char>,
    wrote: usize,
    source: Seq<char>,
    output_bytes: nat,
) -> JsonView {
    JsonView::Object(
        Map::empty().insert("asyncID"@, JsonView::Text(id)).insert(
            "wrote"@,
            unsigned_json(wrote as nat),
        ).insert("source"@, JsonView::Text(source)).insert(
            "outputBytes"@,
            unsigned_json(output_bytes),
        ),
    )
}

/// The answer after the wait that follows typing; `before` and `now` are how many
/// bytes the terminal had shown then and has shown now.
pub fn sent_result(
    id: &str,
    wrote: usize,
    source: &str,
    before: usize,
    now: usize,
    snapshot: String,
) -> (r: TitledResult)
    ensures
        r@ == titled(
            "Async input sent"@,
            sent_json(id@, wrote, source@, shown_since(before, now)),
            snapshot@,
        ),
{
    let shown: usize = if now >= before {
        now - before
    } else {
        0
    };
    let mut e: Vec<(String, Json)> = Vec::new();
    put(&mut e, "asyncID", Json::text(id));
    put(&mut e, "wrote", Json::count(wrote as u64));
    put(&mut e, "source", Json::text(source));
    put(&mut e, "outputBytes", Json::count(shown as u64));
    TitledResult { title: owned("Async input sent"), metadata: Json::Object(e), output: snapshot }
}

} // verus!
