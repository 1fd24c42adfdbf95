//! Runs: how a command is started, what is known of it, and what a request about
//! it is answered.

use crate::bytes::{lossy, lossy_text};
use crate::error::Error;
use crate::json::{add_item, items_view, put, Json, JsonView, Number, NumberView};
use crate::protocol::{
    find_label, label_map, opt_text, output_of, put_label, str_text, tool_output, tool_output_full,
    ToolResult, ToolResultView,
};
use crate::settings::store::{CommandLine, CommandView};
use crate::text::number::{append_dec, append_dec_wide, dec, decimal};
use crate::text::split::{join, joined, starts, starts_with};
use crate::text::width::{cut, cut_text};
use crate::text::{chars_of, lemma_views_push, owned, same_text, views};
use vstd::prelude::*;

verus! {

broadcast use lemma_views_push;

/// The most bytes of a finished run's output that its metadata repeat.
pub const OUTPUT_LIMIT: usize = 30_000;

/// How often a run that is watched is looked at, in milliseconds.
pub const POLL_MS: u64 = 20;

/// The words of a command line, or nothing where a quote is not closed.
pub uninterp spec fn command_words(command: Seq<char>) -> Option<Seq<Seq<char>>>;

/// `shell_words::split`: the words of a command line as a Unix shell would split
/// it, with quotes removed and nothing expanded. It fails where a quote is not
/// closed, and only there. It is a function of the command line.
#[verifier::external_body]
fn split_command(command: &str) -> (r: Option<Vec<String>>)
    ensures
        (match r {
            Some(words) => Some(views(words@)),
            None => None,
        }) == command_words(command@),
{
    shell_words::split(command).ok()
}

/// A command that runs without a shell: its first word is the program.
pub open spec fn direct_run(words: Option<Seq<Seq<char>>>, cwd: Seq<char>) -> Result<
    CommandView,
    Seq<char>,
> {
    match words {
        None => Err("failed to parse command arguments: missing closing quote"@),
        Some(words) => if words.len() == 0 {
            Err("command is required"@)
        } else {
            Ok(CommandView { program: words[0], args: words.skip(1), cwd: Some(cwd) })
        },
    }
}

/// How a command with these words is started without a shell.
pub fn command_from_words(words: Option<Vec<String>>, cwd: &str) -> (r: Result<CommandLine, Error>)
    ensures
        ({
            let split = match words {
                Some(w) => Some(views(w@)),
                None => None,
            };
            match r {
                Ok(c) => direct_run(split, cwd@) == Ok::<CommandView, Seq<char>>(c@),
                Err(e) => direct_run(split, cwd@) == Err::<CommandView, Seq<char>>(e@),
            }
        }),
{
    match words {
        None => Err(Error::of("failed to parse command arguments: missing closing quote")),
        Some(words) => {
            let ghost all = views(words@);
            if words.len() == 0 {
                return Err(Error::of("command is required"));
            }
            let mut words = words;
            let program = words.remove(0);
            proof {
                assert(program@ == all[0]);
                assert(views(words@) =~= all.skip(1));
            }
            Ok(CommandLine { program, args: words, cwd: Some(owned(cwd)) })
        },
    }
}

/// How a command is started without a shell.
pub fn direct_command(command: &str, cwd: &str) -> (r: Result<CommandLine, Error>)
    ensures
        match r {
            Ok(c) => direct_run(command_words(command@), cwd@) == Ok::<CommandView, Seq<char>>(c@),
            Err(e) => direct_run(command_words(command@), cwd@) == Err::<CommandView, Seq<char>>(
                e@,
            ),
        },
{
    command_from_words(split_command(command), cwd)
}

/// How a run ended: with a code, or because it was made to end.
#[derive(Debug)]
pub enum Exit {
    Code(u32),
    Label(String),
}

pub enum ExitView {
    Code(u32),
    Label(Seq<char>),
}

impl View for Exit {
    type V = ExitView;

    open spec fn view(&self) -> ExitView {
        match self {
            Exit::Code(c) => ExitView::Code(*c),
            Exit::Label(s) => ExitView::Label(s@),
        }
    }
}

pub open spec fn opt_exit(e: Option<Exit>) -> Option<ExitView> {
    match e {
        Some(e) => Some(e@),
        None => None,
    }
}

/// How a run ended, if it did: a label counts for more than the code.
pub open spec fn exit_of(label: Option<Seq<char>>, code: Option<u32>) -> Option<ExitView> {
    match code {
        None => None,
        Some(c) => match label {
            Some(s) => Some(ExitView::Label(s)),
            None => Some(ExitView::Code(c)),
        },
    }
}

pub open spec fn exit_json(e: ExitView) -> JsonView {
    match e {
        ExitView::Code(c) => JsonView::Number(NumberView::Unsigned(c as u64)),
        ExitView::Label(s) => JsonView::Text(s),
    }
}

pub open spec fn exit_text(e: ExitView) -> Seq<char> {
    match e {
        ExitView::Code(c) => dec(c as nat),
        ExitView::Label(s) => s,
    }
}

pub fn find_exit(label: Option<&str>, code: Option<u32>) -> (r: Option<Exit>)
    ensures
        opt_exit(r) == exit_of(str_text(label), code),
{
    match code {
        None => None,
        Some(c) => match label {
            Some(s) => Some(Exit::Label(owned(s))),
            None => Some(Exit::Code(c)),
        },
    }
}

pub fn exit_value(e: &Exit) -> (r: Json)
    ensures
        r@ == exit_json(e@),
{
    match e {
        Exit::Code(c) => Json::count(*c as u64),
        Exit::Label(s) => Json::text(s.as_str()),
    }
}

pub fn exit_shown(e: &Exit) -> (r: String)
    ensures
        r@ == exit_text(e@),
{
    match e {
        Exit::Code(c) => decimal(*c as u64),
        Exit::Label(s) => s.clone(),
    }
}

/// Which runs were made to end, and why.
#[derive(Debug)]
pub struct ExitLabels {
    labels: Vec<(String, String)>,
}

impl View for ExitLabels {
    type V = Map<Seq<char>, Seq<char>>;

    closed spec fn view(&self) -> Map<Seq<char>, Seq<char>> {
        label_map(self.labels@)
    }
}

impl ExitLabels {
    pub fn new() -> (r: ExitLabels)
        ensures
            r@ == Map::<Seq<char>, Seq<char>>::empty(),
    {
        ExitLabels { labels: Vec::new() }
    }

    /// Notes why a run is made to end.
    pub fn set(&mut self, id: &str, label: &str)
        ensures
            final(self)@ == old(self)@.insert(id@, label@),
    {
        put_label(&mut self.labels, owned(id), owned(label));
    }

    /// Why a run was made to end.
    pub fn get(&self, id: &str) -> (r: Option<&str>)
        ensures
            match r {
                Some(s) => self@.dom().contains(id@) && self@[id@] == s@,
                None => !self@.dom().contains(id@),
            },
    {
        find_label(&self.labels, id)
    }

    /// Forgets a run.
    pub fn clear(&mut self, id: &str)
        ensures
            final(self)@ == old(self)@.remove(id@),
    {
        let mut kept: Vec<(String, String)> = Vec::new();
        let mut i: usize = 0;
        proof {
            assert(self.labels@.take(0) =~= seq![]);
            assert(Map::<Seq<char>, Seq<char>>::empty().remove(id@) =~= Map::empty());
        }
        while i < self.labels.len()
            invariant
                i <= self.labels@.len(),
                label_map(kept@) == label_map(self.labels@.take(i as int)).remove(id@),
            decreases self.labels@.len() - i,
        {
            let ghost last = self.labels@[i as int];
            proof {
                assert(self.labels@.take(i + 1).drop_last() =~= self.labels@.take(i as int));
            }
            if !same_text(self.labels[i].0.as_str(), id) {
                put_label(&mut kept, self.labels[i].0.clone(), self.labels[i].1.clone());
                proof {
                    assert(label_map(self.labels@.take(i as int)).insert(
                        last.0@,
                        last.1@,
                    ).remove(id@) =~= label_map(self.labels@.take(i as int)).remove(id@).insert(
                        last.0@,
                        last.1@,
                    ));
                }
            } else {
                proof {
                    assert(label_map(self.labels@.take(i as int)).insert(
                        last.0@,
                        last.1@,
                    ).remove(id@) =~= label_map(self.labels@.take(i as int)).remove(id@));
                }
            }
            i = i + 1;
        }
        proof {
            assert(self.labels@.take(self.labels@.len() as int) =~= self.labels@);
        }
        self.labels = kept;
    }
}

/// What a terminal tells of the command in it.
#[derive(Debug)]
pub struct SessionFacts {
    pub pty: String,
    pub command: Vec<String>,
    pub cwd: Option<String>,
    pub process_id: Option<u32>,
    pub created_at: u64,
    pub output_history_bytes: usize,
    pub exit_code: Option<u32>,
}

#[verifier::ext_equal]
pub struct SessionView {
    pub pty: Seq<char>,
    pub command: Seq<Seq<char>>,
    pub cwd: Option<Seq<char>>,
    pub process_id: Option<u32>,
    pub created_at: u64,
    pub output_history_bytes: usize,
    pub exit_code: Option<u32>,
}

impl View for SessionFacts {
    type V = SessionView;

    open spec fn view(&self) -> SessionView {
        SessionView {
            pty: self.pty@,
            command: views(self.command@),
            cwd: opt_text(self.cwd),
            process_id: self.process_id,
            created_at: self.created_at,
            output_history_bytes: self.output_history_bytes,
            exit_code: self.exit_code,
        }
    }
}

/// What is known of a run.
#[derive(Debug)]
pub struct RunDetail {
    pub async_id: String,
    pub pid: Option<u32>,
    pub exit_code: Option<Exit>,
    pub total_output: usize,
    pub command: String,
    pub description: String,
    pub cwd: String,
    pub timeout: Option<i64>,
    pub started_at: u64,
    pub ended_at: Option<u64>,
}

#[verifier::ext_equal]
pub struct RunView {
    pub async_id: Seq<char>,
    pub pid: Option<u32>,
    pub exit_code: Option<ExitView>,
    pub total_output: usize,
    pub command: Seq<char>,
    pub description: Seq<char>,
    pub cwd: Seq<char>,
    pub timeout: Option<i64>,
    pub started_at: u64,
    pub ended_at: Option<u64>,
}

impl View for RunDetail {
    type V = RunView;

    open spec fn view(&self) -> RunView {
        RunView {
            async_id: self.async_id@,
            pid: self.pid,
            exit_code: opt_exit(self.exit_code),
            total_output: self.total_output,
            command: self.command@,
            description: self.description@,
            cwd: self.cwd@,
            timeout: self.timeout,
            started_at: self.started_at,
            ended_at: self.ended_at,
        }
    }
}

/// What is known of the run in a terminal at the time `now`.
pub open spec fn detail_of(
    s: SessionView,
    label: Option<Seq<char>>,
    description: Option<Seq<char>>,
    timeout: Option<i64>,
    now: u64,
) -> RunView {
    let command = join(s.command, " "@);
    let exit = exit_of(label, s.exit_code);
    RunView {
        async_id: s.pty,
        pid: s.process_id,
        exit_code: exit,
        total_output: s.output_history_bytes,
        command,
        description: match description {
            Some(d) => d,
            None => command,
        },
        cwd: match s.cwd {
            Some(c) => c,
            None => seq![],
        },
        timeout,
        started_at: s.created_at,
        ended_at: if exit is Some {
            Some(now)
        } else {
            None
        },
    }
}

pub fn run_detail(
    s: &SessionFacts,
    label: Option<&str>,
    description: Option<&str>,
    timeout: Option<i64>,
    now: u64,
) -> (r: RunDetail)
    ensures
        r@ == detail_of(s@, str_text(label), str_text(description), timeout, now),
{
    let command = joined(s.command.as_slice(), " ");
    let exit_code = find_exit(label, s.exit_code);
    let ended_at = match &exit_code {
        Some(_) => Some(now),
        None => None,
    };
    let shown = match description {
        Some(d) => owned(d),
        None => command.clone(),
    };
    let cwd = match &s.cwd {
        Some(c) => c.clone(),
        None => String::new(),
    };
    RunDetail {
        async_id: s.pty.clone(),
        pid: s.process_id,
        exit_code,
        total_output: s.output_history_bytes,
        command,
        description: shown,
        cwd,
        timeout,
        started_at: s.created_at,
        ended_at,
    }
}

/// Whether a run goes on.
pub open spec fn state_text(exit: Option<ExitView>) -> Seq<char> {
    if exit is Some {
        "stopped"@
    } else {
        "running"@
    }
}

fn state_name(exit: &Option<Exit>) -> (r: &'static str)
    ensures
        r@ == state_text(opt_exit(*exit)),
{
    match exit {
        Some(_) => "stopped",
        None => "running",
    }
}

/// A number with a sign.
pub open spec fn signed_json(n: i64) -> JsonView {
    if n < 0 {
        JsonView::Number(NumberView::Negative(n))
    } else {
        JsonView::Number(NumberView::Unsigned(n as u64))
    }
}

fn signed_value(n: i64) -> (r: Json)
    ensures
        r@ == signed_json(n),
{
    if n < 0 {
        Json::Number(Number::Negative(n))
    } else {
        Json::count(n as u64)
    }
}

pub open spec fn unsigned_json(n: nat) -> JsonView {
    JsonView::Number(NumberView::Unsigned(n as u64))
}

/// The entries of a run: how it ended and when only where it did.
pub open spec fn detail_entries(d: RunView) -> Map<Seq<char>, JsonView> {
    let base = Map::empty().insert("asyncID"@, JsonView::Text(d.async_id)).insert(
        "pid"@,
        match d.pid {
            Some(p) => unsigned_json(p as nat),
            None => JsonView::Null,
        },
    ).insert("state"@, JsonView::Text(state_text(d.exit_code))).insert(
        "totalOutput"@,
        unsigned_json(d.total_output as nat),
    ).insert("command"@, JsonView::Text(d.command)).insert(
        "description"@,
        JsonView::Text(d.description),
    ).insert("cwd"@, JsonView::Text(d.cwd)).insert(
        "timeout"@,
        match d.timeout {
            Some(t) => signed_json(t),
            None => JsonView::Null,
        },
    ).insert("startedAt"@, unsigned_json(d.started_at as nat));
    let ended = match d.exit_code {
        Some(e) => base.insert("exitCode"@, exit_json(e)),
        None => base,
    };
    match d.ended_at {
        Some(t) => ended.insert("endedAt"@, unsigned_json(t as nat)),
        None => ended,
    }
}

fn put_detail(d: &RunDetail) -> (r: Vec<(String, Json)>)
    ensures
        crate::json::entries_view(r@) == detail_entries(d@),
{
    let mut e: Vec<(String, Json)> = Vec::new();
    put(&mut e, "asyncID", Json::text(d.async_id.as_str()));
    put(
        &mut e,
        "pid",
        match d.pid {
            Some(p) => Json::count(p as u64),
            None => Json::Null,
        },
    );
    put(&mut e, "state", Json::text(state_name(&d.exit_code)));
    put(&mut e, "totalOutput", Json::count(d.total_output as u64));
    put(&mut e, "command", Json::text(d.command.as_str()));
    put(&mut e, "description", Json::text(d.description.as_str()));
    put(&mut e, "cwd", Json::text(d.cwd.as_str()));
    put(
        &mut e,
        "timeout",
        match d.timeout {
            Some(t) => signed_value(t),
            None => Json::Null,
        },
    );
    put(&mut e, "startedAt", Json::count(d.started_at));
    if let Some(exit) = &d.exit_code {
        put(&mut e, "exitCode", exit_value(exit));
    }
    if let Some(t) = d.ended_at {
        put(&mut e, "endedAt", Json::count(t));
    }
    e
}

/// What is known of a run, as a value.
pub fn exbash_run_detail(d: &RunDetail) -> (r: Json)
    ensures
        r@ == JsonView::Object(detail_entries(d@)),
{
    Json::Object(put_detail(d))
}

/// A line about a run.
pub open spec fn run_line(d: RunView) -> Seq<char> {
    d.async_id + " "@ + state_text(d.exit_code) + (match d.exit_code {
        Some(e) => " exit="@ + exit_text(e),
        None => seq![],
    }) + " totalOutput="@ + dec(d.total_output as nat) + " command="@ + d.command
}

/// The runs, one to a line.
pub open spec fn runs_text(runs: Seq<RunView>) -> Seq<char> {
    if runs.len() == 0 {
        "No async runs"@
    } else {
        join(Seq::new(runs.len(), |i: int| run_line(runs[i])), "\n"@)
    }
}

fn format_run(d: &RunDetail) -> (r: String)
    ensures
        r@ == run_line(d@),
{
    let mut m = d.async_id.clone();
    m.append(" ");
    m.append(state_name(&d.exit_code));
    let ghost start = m@;
    if let Some(e) = &d.exit_code {
        let mut part = owned(" exit=");
        let shown = exit_shown(e);
        part.append(shown.as_str());
        m.append(part.as_str());
    } else {
        proof {
            assert(start + Seq::<char>::empty() =~= start);
        }
    }
    m.append(" totalOutput=");
    append_dec(&mut m, d.total_output as u64);
    m.append(" command=");
    m.append(d.command.as_str());
    m
}

pub fn format_run_details(runs: &[RunDetail]) -> (r: String)
    ensures
        r@ == runs_text(views(runs@)),
{
    if runs.len() == 0 {
        return owned("No async runs");
    }
    let ghost all = views(runs@);
    let ghost shown = |i: int| run_line(all[i]);
    let mut lines: Vec<String> = Vec::new();
    let mut i: usize = 0;
    while i < runs.len()
        invariant
            i <= runs@.len(),
            all == views(runs@),
            shown == (|k: int| run_line(all[k])),
            views(lines@) == Seq::new(i as nat, shown),
        decreases runs@.len() - i,
    {
        let ghost before = lines@;
        lines.push(format_run(&runs[i]));
        proof {
            assert(all[i as int] == runs@[i as int]@);
            assert(views(lines@) == views(before).push(shown(i as int)));
            assert(views(lines@) =~= Seq::new((i + 1) as nat, shown));
        }
        i = i + 1;
    }
    joined(lines.as_slice(), "\n")
}

/// Whether a terminal is listed: it holds a run, and it is the one that is asked
/// for where one is.
pub open spec fn listed(pty: Seq<char>, filter: Option<Seq<char>>) -> bool {
    starts(pty, "rex-"@) && (filter is Some ==> filter->Some_0 == pty)
}

pub fn is_listed(pty: &str, filter: Option<&str>) -> (r: bool)
    ensures
        r == listed(pty@, str_text(filter)),
{
    let all = chars_of(pty);
    starts_with(all.as_slice(), "rex-") && match filter {
        Some(id) => same_text(id, pty),
        None => true,
    }
}

/// The name of a new run.
pub open spec fn run_id(now: u128, number: u64) -> Seq<char> {
    "rex-"@ + dec(now as nat) + "-"@ + dec(number as nat)
}

pub fn next_id(now: u128, number: u64) -> (r: String)
    ensures
        r@ == run_id(now, number),
{
    let mut out = owned("rex-");
    append_dec_wide(&mut out, now);
    out.append("-");
    append_dec(&mut out, number);
    out
}

/// Every run is listed where none is asked for, and where it is the one.
pub proof fn lemma_new_run_is_listed(now: u128, number: u64)
    ensures
        listed(run_id(now, number), None),
        listed(run_id(now, number), Some(run_id(now, number))),
{
    let id = run_id(now, number);
    assert(id.take("rex-"@.len() as int) =~= "rex-"@);
}

/// What comes next while a run is watched.
#[derive(Clone, Copy, Debug, PartialEq, Eq, Structural)]
pub enum Watch {
    Ended,
    TimeIsUp,
    Sleep(u64),
}

/// A run that has ended is told at once; else it is looked at again after a
/// while, and no later than at the deadline.
pub open spec fn watch_step(ended: bool, now: u64, deadline: u64) -> Watch {
    if ended {
        Watch::Ended
    } else if now >= deadline {
        Watch::TimeIsUp
    } else if deadline - now < POLL_MS {
        Watch::Sleep((deadline - now) as u64)
    } else {
        Watch::Sleep(POLL_MS)
    }
}

pub fn next_watch(ended: bool, now: u64, deadline: u64) -> (r: Watch)
    ensures
        r == watch_step(ended, now, deadline),
{
    if ended {
        Watch::Ended
    } else if now >= deadline {
        Watch::TimeIsUp
    } else if deadline - now < POLL_MS {
        Watch::Sleep(deadline - now)
    } else {
        Watch::Sleep(POLL_MS)
    }
}

/// A sleep is never empty and never lasts past the deadline.
pub proof fn lemma_watch_keeps_the_deadline(ended: bool, now: u64, deadline: u64)
    ensures
        watch_step(ended, now, deadline) matches Watch::Sleep(ms) ==> 0 < ms && now + ms
            <= deadline,
{
}

/// A run that ended while it was watched.
pub open spec fn completed(output: Seq<char>, exit: Option<ExitView>) -> ToolResultView {
    ToolResultView {
        metadata: JsonView::Object(
            Map::empty().insert(
                "output"@,
                JsonView::Text(cut_text(output, OUTPUT_LIMIT as int, "\n\n..."@)),
            ).insert(
                "exitCode"@,
                match exit {
                    Some(e) => exit_json(e),
                    None => JsonView::Null,
                },
            ),
        ),
        output: output_of(""@, output, ""@),
    }
}

/// Tells of a run that ended while it was watched; `bytes` is what it put out.
pub fn completed_result(bytes: &[u8], detail: &RunDetail) -> (r: ToolResult)
    ensures
        r@ == completed(lossy_text(bytes@), detail@.exit_code),
{
    show_completed(lossy(bytes), detail)
}

/// Tells of a run that ended while it was watched and put out this text.
pub fn show_completed(output: String, detail: &RunDetail) -> (r: ToolResult)
    ensures
        r@ == completed(output@, detail@.exit_code),
{
    let all = chars_of(output.as_str());
    let clipped = cut(all.as_slice(), OUTPUT_LIMIT, "\n\n...");
    let mut e: Vec<(String, Json)> = Vec::new();
    put(&mut e, "output", Json::Text(clipped));
    put(
        &mut e,
        "exitCode",
        match &detail.exit_code {
            Some(exit) => exit_value(exit),
            None => Json::Null,
        },
    );
    ToolResult { metadata: Json::Object(e), output: tool_output(output) }
}

/// A run that goes on after the call returns.
pub open spec fn detached(d: RunView, snapshot: Seq<char>) -> ToolResultView {
    ToolResultView {
        metadata: JsonView::Object(detail_entries(d).insert("detached"@, JsonView::Bool(true))),
        output: output_of(d.async_id + " detached"@, snapshot, ""@),
    }
}

pub fn detached_result(d: &RunDetail, snapshot: String) -> (r: ToolResult)
    ensures
        r@ == detached(d@, snapshot@),
{
    let mut e = put_detail(d);
    put(&mut e, "detached", Json::Bool(true));
    let mut message = d.async_id.clone();
    message.append(" detached");
    ToolResult { metadata: Json::Object(e), output: tool_output_full(message, snapshot, owned("")) }
}

/// Several runs as a value.
pub open spec fn runs_json(runs: Seq<RunView>) -> JsonView {
    JsonView::Object(
        Map::empty().insert(
            "runs"@,
            JsonView::Array(
                Seq::new(runs.len(), |i: int| JsonView::Object(detail_entries(runs[i]))),
            ),
        ),
    )
}

pub fn runs_value(runs: &[RunDetail]) -> (r: Json)
    ensures
        r@ == runs_json(views(runs@)),
{
    let ghost all = views(runs@);
    let ghost shown = |i: int| JsonView::Object(detail_entries(all[i]));
    let mut items: Vec<Json> = Vec::new();
    let mut i: usize = 0;
    while i < runs.len()
        invariant
            i <= runs@.len(),
            all == views(runs@),
            shown == (|k: int| JsonView::Object(detail_entries(all[k]))),
            items_view(items@) == Seq::new(i as nat, shown),
        decreases runs@.len() - i,
    {
        add_item(&mut items, exbash_run_detail(&runs[i]));
        proof {
            assert(all[i as int] == runs@[i as int]@);
            assert(items_view(items@) =~= Seq::new((i + 1) as nat, shown));
        }
        i = i + 1;
    }
    let mut e: Vec<(String, Json)> = Vec::new();
    put(&mut e, "runs", Json::Array(items));
    Json::Object(e)
}

/// The runs that there are.
pub open spec fn listed_runs(runs: Seq<RunView>) -> ToolResultView {
    ToolResultView { metadata: runs_json(runs), output: output_of(""@, runs_text(runs), ""@) }
}

pub fn list_result(runs: &[RunDetail]) -> (r: ToolResult)
    ensures
        r@ == listed_runs(views(runs@)),
{
    ToolResult { metadata: runs_value(runs), output: tool_output(format_run_details(runs)) }
}

/// A run that was stopped.
pub open spec fn stopped(d: RunView, snapshot: Seq<char>) -> ToolResultView {
    ToolResultView {
        metadata: JsonView::Object(detail_entries(d)),
        output: output_of(""@, snapshot, ""@),
    }
}

pub fn stop_result(d: &RunDetail, snapshot: String) -> (r: ToolResult)
    ensures
        r@ == stopped(d@, snapshot@),
{
    ToolResult { metadata: exbash_run_detail(d), output: tool_output(snapshot) }
}

/// A run that was removed.
pub open spec fn removed() -> ToolResultView {
    ToolResultView {
        metadata: JsonView::Object(Map::empty().insert("ok"@, JsonView::Bool(true))),
        output: output_of(""@, "ok"@, ""@),
    }
}

pub fn remove_result() -> (r: ToolResult)
    ensures
        r@ == removed(),
{
    let mut e: Vec<(String, Json)> = Vec::new();
    put(&mut e, "ok", Json::Bool(true));
    ToolResult { metadata: Json::Object(e), output: tool_output(owned("ok")) }
}

} // verus!
