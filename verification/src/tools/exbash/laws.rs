//! What requests about runs mean, and what is told of runs.

use crate::bytes::lossy_text;
use crate::context::PlaceView;
use crate::json::{field, text_at, JsonView, NumberView};
use crate::protocol::lemma_output_shows;
use crate::text::laws::{lemma_dec_is_digits, lemma_split_undoes_join};
use crate::text::number::dec;
use crate::text::split::{join, split, starts};
use crate::text::width::{cut_text, lemma_cut_keeps_what_fits};
use crate::tools::exbash::attach::{
    attach_step, attached, attached_run, controller_of, requested_input, requested_source,
    shown_since, stopped_attach, unescaped, InputView,
};
use crate::tools::exbash::run::{
    completed, detached, detail_entries, detail_of, direct_run, exit_json, exit_of, exit_text,
    listed, listed_runs, removed, run_id, run_line, runs_text, stopped, watch_step, ExitView,
    RunView, SessionView, Watch,
};
use crate::tools::exbash::{
    input_fault, mode_named, run_directory, run_limit, shown_as, ExbashMode, ExbashView,
};
use vstd::prelude::*;
use vstd::utf8::encode_utf8;

verus! {

// ---------------------------------------------------------------------------
// Requests
// ---------------------------------------------------------------------------
/// The name of a mode.
pub open spec fn mode_name(mode: ExbashMode) -> Seq<char> {
    match mode {
        ExbashMode::Run => "run"@,
        ExbashMode::Shell => "shell"@,
        ExbashMode::Attach => "attach"@,
        ExbashMode::List => "list"@,
        ExbashMode::Stop => "stop"@,
        ExbashMode::Remove => "remove"@,
    }
}

proof fn lemma_mode_names_differ()
    ensures
        "run"@.len() == 3,
        "shell"@.len() == 5,
        "attach"@.len() == 6,
        "list"@.len() == 4,
        "stop"@.len() == 4,
        "remove"@.len() == 6,
        "attach"@[0] == 'a',
        "list"@[0] == 'l',
        "stop"@[0] == 's',
        "remove"@[0] == 'r',
{
    reveal_strlit("run");
    reveal_strlit("shell");
    reveal_strlit("attach");
    reveal_strlit("list");
    reveal_strlit("stop");
    reveal_strlit("remove");
}

/// Every mode is meant by its name and by nothing else.
pub proof fn lemma_modes_are_named(mode: ExbashMode, name: Option<Seq<char>>)
    ensures
        mode_named(Some(mode_name(mode))) == Ok::<ExbashMode, Seq<char>>(mode),
        mode_named(name) matches Ok(m) ==> name == Some(mode_name(m)),
        mode_named(None) is Err,
{
    reveal_strlit("");
    lemma_mode_names_differ();
}

/// A run has no limit where none is given, or `-1` or nothing is; any other limit that is
/// not negative is kept, and a negative one is refused.
pub proof fn lemma_run_limits(timeout: Option<i64>)
    ensures
        timeout is None ==> run_limit(timeout) == Ok::<Option<u64>, Seq<char>>(None),
        timeout matches Some(ms) ==> (run_limit(timeout) is Err <==> ms < -1),
        timeout matches Some(ms) ==> (ms > 0 ==> run_limit(timeout) == Ok::<
            Option<u64>,
            Seq<char>,
        >(Some(ms as u64))),
        timeout matches Some(ms) ==> (ms == 0 || ms == -1 ==> run_limit(timeout) == Ok::<
            Option<u64>,
            Seq<char>,
        >(None)),
{
}

/// A command runs in the directory that the request names, seen from that of the tools,
/// or in that one.
pub proof fn lemma_command_runs_where_asked(place: PlaceView, workdir: Option<Seq<char>>)
    ensures
        workdir is None || workdir->Some_0.len() == 0 ==> run_directory(place, workdir)
            == place.directory,
        workdir is Some && workdir->Some_0.len() > 0 ==> run_directory(place, workdir)
            == crate::paths::join_path(place.windows, place.directory, workdir->Some_0),
{
}

/// A command without a shell is its first word, with all the others as its arguments in
/// their order, in the directory that was asked for.
pub proof fn lemma_first_word_is_the_program(words: Seq<Seq<char>>, cwd: Seq<char>)
    ensures
        words.len() == 0 ==> direct_run(Some(words), cwd) is Err,
        direct_run(None, cwd) is Err,
        words.len() > 0 ==> ({
            &&& direct_run(Some(words), cwd) matches Ok(c)
            &&& seq![c.program] + c.args == words
            &&& c.cwd == Some(cwd)
        }),
{
    if words.len() > 0 {
        assert(seq![words[0]] + words.skip(1) =~= words);
    }
}

/// People see a run by what describes it best.
pub proof fn lemma_run_is_shown_as(o: ExbashView)
    ensures
        o.description matches Some(d) ==> shown_as(o) == d,
        o.description is None && o.command is Some ==> shown_as(o) == o.command->Some_0,
        o.description is None && o.command is None && o.mode is Some ==> shown_as(o)
            == o.mode->Some_0,
        o.description is None && o.command is None && o.mode is None ==> shown_as(o) == "exbash"@,
{
}

/// What is typed into a run is the text of the request, its escapes written out, or the
/// file that it names; both at once are refused, and empty ones count as none.
pub proof fn lemma_input_is_as_asked(o: ExbashView)
    ensures
        ({
            let text = o.text is Some && o.text->Some_0.len() > 0;
            let file = o.file_path is Some && o.file_path->Some_0.len() > 0;
            let r = requested_input(o);
            &&& text && file ==> r is Err
            &&& !text && !file ==> r == Ok::<InputView, Seq<char>>(InputView::Nothing)
            &&& !text && file ==> r == Ok::<InputView, Seq<char>>(
                InputView::File(o.file_path->Some_0),
            )
            &&& text && !file ==> (r is Ok <==> unescaped(o.text->Some_0) is Ok && encode_utf8(
                unescaped(o.text->Some_0)->Ok_0,
            ).len() <= 4096)
            &&& text && !file && r is Ok ==> r == Ok::<InputView, Seq<char>>(
                InputView::Text(encode_utf8(unescaped(o.text->Some_0)->Ok_0)),
            )
        }),
{
}

/// A request to attach is about the run that it names, and says nothing of how long runs
/// may last.
pub proof fn lemma_attach_is_about_its_run(o: ExbashView)
    ensures
        attached_run(o) is Ok <==> o.timeout is None && o.async_id is Some,
        attached_run(o) matches Ok(id) ==> Some(id) == o.async_id,
{
}

/// A run that has ended is told at once, whatever the time; one that goes on is told once
/// its time is up, and not before.
pub proof fn lemma_watch_ends_in_time(ended: bool, now: u64, deadline: u64)
    ensures
        ended <==> watch_step(ended, now, deadline) == Watch::Ended,
        !ended ==> (now >= deadline <==> watch_step(ended, now, deadline) == Watch::TimeIsUp),
        watch_step(ended, now, deadline) matches Watch::Sleep(ms) ==> 0 < ms <= 20 && ms <= deadline
            - now,
{
}

/// A request that typed into a terminal fails as soon as someone else controls that, and
/// one that typed nothing does not care.
pub proof fn lemma_lost_control_is_told(
    controller: Option<Seq<char>>,
    current: Option<Seq<char>>,
    ended: bool,
    now: u64,
    deadline: u64,
)
    ensures
        attach_step(controller, current, ended, now, deadline) is Err <==> controller is Some
            && current != controller,
        controller is None || current == controller ==> attach_step(
            controller,
            current,
            ended,
            now,
            deadline,
        ) == Ok::<Watch, Seq<char>>(watch_step(ended, now, deadline)),
{
}

/// Two runs that start at different times or have different numbers have different names.
pub proof fn lemma_run_names_differ(now: u128, number: u64, later: u128, other: u64)
    requires
        run_id(now, number) == run_id(later, other),
    ensures
        now == later,
        number == other,
{
    reveal_strlit("rex-");
    reveal_strlit("-");
    lemma_dec_is_digits(now as nat);
    lemma_dec_is_digits(later as nat);
    let (a, b) = (dec(now as nat), dec(later as nat));
    let (x, y) = (dec(number as nat), dec(other as nat));
    assert(run_id(now, number).skip(4) =~= a + seq!['-'] + x);
    assert(run_id(later, other).skip(4) =~= b + seq!['-'] + y);
    assert forall|i: int| 0 <= i < a.len() implies a[i] != '-' by {}
    assert forall|i: int| 0 <= i < b.len() implies b[i] != '-' by {}
    crate::text::laws::lemma_cut_at(a, '-', x, b, y);
    crate::text::laws::lemma_dec_tells_apart(now as nat, later as nat);
    crate::text::laws::lemma_dec_tells_apart(number as nat, other as nat);
}

/// The runs that are listed are the terminals that hold one, and of these the one that is
/// asked for where one is.
pub proof fn lemma_listed_runs(pty: Seq<char>, filter: Seq<char>, other: Seq<char>)
    ensures
        listed(pty, None) <==> starts(pty, "rex-"@),
        listed(pty, Some(filter)) <==> starts(pty, "rex-"@) && pty == filter,
{
}

// ---------------------------------------------------------------------------
// What is told of a run
// ---------------------------------------------------------------------------
/// A run has ended where its terminal has an exit code; a label takes the place of the
/// code, and never ends a run by itself.
pub proof fn lemma_label_stands_for_code(label: Option<Seq<char>>, code: Option<u32>)
    ensures
        exit_of(label, code) is Some <==> code is Some,
        code is Some && label is None ==> exit_of(label, code) == Some(ExitView::Code(code->Some_0)),
        code is Some && label is Some ==> exit_of(label, code) == Some(
            ExitView::Label(label->Some_0),
        ),
{
}

/// What is known of a run is what its terminal knows, the words of its command with
/// blanks between them, and the description of the request where it has one.
pub proof fn lemma_run_is_its_terminal(
    s: SessionView,
    label: Option<Seq<char>>,
    description: Option<Seq<char>>,
    timeout: Option<i64>,
    now: u64,
)
    ensures
        ({
            let d = detail_of(s, label, description, timeout, now);
            &&& d.async_id == s.pty
            &&& d.pid == s.process_id
            &&& d.total_output == s.output_history_bytes
            &&& d.command == join(s.command, " "@)
            &&& d.started_at == s.created_at
            &&& d.timeout == timeout
            &&& d.exit_code == exit_of(label, s.exit_code)
            &&& d.ended_at is Some <==> s.exit_code is Some
            &&& d.ended_at matches Some(t) ==> t == now
            &&& description matches Some(x) ==> d.description == x
            &&& description is None ==> d.description == d.command
            &&& s.cwd matches Some(c) ==> d.cwd == c
            &&& s.cwd is None ==> d.cwd.len() == 0
        }),
{
}

proof fn lemma_run_fields_differ()
    ensures
        "asyncID"@.len() == 7,
        "pid"@.len() == 3,
        "state"@.len() == 5,
        "totalOutput"@.len() == 11,
        "command"@.len() == 7,
        "description"@.len() == 11,
        "cwd"@.len() == 3,
        "timeout"@.len() == 7,
        "startedAt"@.len() == 9,
        "exitCode"@.len() == 8,
        "endedAt"@.len() == 7,
        "detached"@.len() == 8,
        "asyncID"@[0] == 'a',
        "pid"@[0] == 'p',
        "totalOutput"@[0] == 't',
        "command"@[0] == 'c',
        "description"@[0] == 'd',
        "cwd"@[0] == 'c',
        "timeout"@[0] == 't',
        "exitCode"@[0] == 'e',
        "endedAt"@[0] == 'e',
        "detached"@[0] == 'd',
{
    reveal_strlit("asyncID");
    reveal_strlit("pid");
    reveal_strlit("state");
    reveal_strlit("totalOutput");
    reveal_strlit("command");
    reveal_strlit("description");
    reveal_strlit("cwd");
    reveal_strlit("timeout");
    reveal_strlit("startedAt");
    reveal_strlit("exitCode");
    reveal_strlit("endedAt");
    reveal_strlit("detached");
}

/// A run is told of with its name, its process, whether it goes on, how much it put out,
/// its command, its description, its directory, its limit and when it started; how and
/// when it ended where it did.
pub proof fn lemma_run_is_told_of(d: RunView)
    ensures
        ({
            let j = JsonView::Object(detail_entries(d));
            &&& text_at(j, "asyncID"@) == Some(d.async_id)
            &&& text_at(j, "command"@) == Some(d.command)
            &&& text_at(j, "description"@) == Some(d.description)
            &&& text_at(j, "cwd"@) == Some(d.cwd)
            &&& d.exit_code is None ==> text_at(j, "state"@) == Some("running"@) && field(
                j,
                "exitCode"@,
            ) is None
            &&& d.exit_code is Some ==> text_at(j, "state"@) == Some("stopped"@)
            &&& d.exit_code matches Some(ExitView::Code(c)) ==> field(j, "exitCode"@) == Some(
                JsonView::Number(NumberView::Unsigned(c as u64)),
            )
            &&& d.exit_code matches Some(ExitView::Label(s)) ==> text_at(j, "exitCode"@) == Some(s)
            &&& d.pid matches Some(p) ==> field(j, "pid"@) == Some(
                JsonView::Number(NumberView::Unsigned(p as u64)),
            )
            &&& d.pid is None ==> field(j, "pid"@) == Some(JsonView::Null)
            &&& field(j, "totalOutput"@) == Some(
                JsonView::Number(NumberView::Unsigned(d.total_output as u64)),
            )
            &&& field(j, "startedAt"@) == Some(
                JsonView::Number(NumberView::Unsigned(d.started_at)),
            )
            &&& d.ended_at is None ==> field(j, "endedAt"@) is None
            &&& d.ended_at matches Some(t) ==> field(j, "endedAt"@) == Some(
                JsonView::Number(NumberView::Unsigned(t)),
            )
            &&& d.timeout is None ==> field(j, "timeout"@) == Some(JsonView::Null)
            &&& d.timeout matches Some(t) ==> (t >= 0 ==> field(j, "timeout"@) == Some(
                JsonView::Number(NumberView::Unsigned(t as u64)),
            )) && (t < 0 ==> field(j, "timeout"@) == Some(JsonView::Number(NumberView::Negative(t))))
        }),
{
    lemma_run_fields_differ();
}

/// Whether what is told of a run stands on one line.
pub open spec fn is_one_line(d: RunView) -> bool {
    &&& !d.async_id.contains('\n')
    &&& !d.command.contains('\n')
    &&& d.exit_code matches Some(ExitView::Label(s)) ==> !s.contains('\n')
}

proof fn lemma_no_line_end(a: Seq<char>, b: Seq<char>)
    requires
        !a.contains('\n'),
        !b.contains('\n'),
    ensures
        !(a + b).contains('\n'),
{
    let s = a + b;
    assert forall|i: int| 0 <= i < s.len() implies s[i] != '\n' by {
        if i < a.len() {
            assert(a.contains(a[i]));
        } else {
            assert(b.contains(b[i - a.len()]));
        }
    }
}

/// The line about a run.
pub open spec fn told_line(d: RunView) -> Seq<char> {
    d.async_id + (match d.exit_code {
        None => " running"@,
        Some(ExitView::Code(c)) => " stopped exit="@ + dec(c as nat),
        Some(ExitView::Label(s)) => " stopped exit="@ + s,
    }) + " totalOutput="@ + dec(d.total_output as nat) + " command="@ + d.command
}

proof fn lemma_run_line_is(d: RunView)
    requires
        is_one_line(d),
    ensures
        run_line(d) == told_line(d),
        !run_line(d).contains('\n'),
{
    reveal_strlit(" ");
    reveal_strlit("running");
    reveal_strlit("stopped");
    reveal_strlit(" running");
    reveal_strlit(" exit=");
    reveal_strlit(" stopped exit=");
    reveal_strlit(" totalOutput=");
    reveal_strlit(" command=");
    assert(" "@ + "running"@ =~= " running"@);
    assert(" "@ + "stopped"@ + " exit="@ =~= " stopped exit="@);
    assert(run_line(d) =~= told_line(d));
    let n = dec(d.total_output as nat);
    lemma_dec_is_digits(d.total_output as nat);
    assert(!n.contains('\n'));
    let how: Seq<char> = match d.exit_code {
        None => " running"@,
        Some(ExitView::Code(c)) => " stopped exit="@ + dec(c as nat),
        Some(ExitView::Label(s)) => " stopped exit="@ + s,
    };
    match d.exit_code {
        None => {},
        Some(ExitView::Code(c)) => {
            lemma_dec_is_digits(c as nat);
            assert(!dec(c as nat).contains('\n'));
            lemma_no_line_end(" stopped exit="@, dec(c as nat));
        },
        Some(ExitView::Label(s)) => {
            lemma_no_line_end(" stopped exit="@, s);
        },
    }
    lemma_no_line_end(d.async_id, how);
    lemma_no_line_end(d.async_id + how, " totalOutput="@);
    lemma_no_line_end(d.async_id + how + " totalOutput="@, n);
    lemma_no_line_end(d.async_id + how + " totalOutput="@ + n, " command="@);
    lemma_no_line_end(d.async_id + how + " totalOutput="@ + n + " command="@, d.command);
}

/// The list of runs has a line for each of them, in their order, with its name, whether
/// and how it ended, how much it put out and its command.
pub proof fn lemma_every_run_is_listed(runs: Seq<RunView>, i: int)
    requires
        0 <= i < runs.len(),
        forall|k: int| 0 <= k < runs.len() ==> is_one_line(#[trigger] runs[k]),
    ensures
        ({
            let r = listed_runs(runs);
            &&& text_at(r.output, "text"@) matches Some(text)
            &&& split(text, '\n').len() == runs.len()
            &&& split(text, '\n')[i] == told_line(runs[i])
            &&& field(r.metadata, "runs"@) matches Some(JsonView::Array(items))
            &&& items.len() == runs.len()
            &&& items[i] == JsonView::Object(detail_entries(runs[i]))
        }),
{
    let rows = Seq::new(runs.len(), |k: int| run_line(runs[k]));
    assert forall|k: int| 0 <= k < rows.len() implies !(#[trigger] rows[k]).contains('\n') by {
        assert(is_one_line(runs[k]));
        lemma_run_line_is(runs[k]);
    }
    lemma_run_line_is(runs[i]);
    lemma_split_undoes_join(rows);
    lemma_output_shows(""@, runs_text(runs), ""@);
}

proof fn lemma_answer_fields_differ()
    ensures
        "output"@.len() == 6,
        "exitCode"@.len() == 8,
        "asyncID"@.len() == 7,
        "wrote"@.len() == 5,
        "source"@.len() == 6,
        "outputBytes"@.len() == 11,
        "state"@.len() == 5,
        "rawPretty"@.len() == 9,
        "output"@[0] == 'o',
        "wrote"@[0] == 'w',
        "source"@[0] == 's',
        "state"@[0] == 's',
{
    reveal_strlit("output");
    reveal_strlit("exitCode");
    reveal_strlit("asyncID");
    reveal_strlit("wrote");
    reveal_strlit("source");
    reveal_strlit("outputBytes");
    reveal_strlit("state");
    reveal_strlit("rawPretty");
}

/// A run that ended while it was watched is answered with all of its output, and with how
/// it ended.
pub proof fn lemma_completed_run_is_told(output: Seq<char>, exit: Option<ExitView>)
    ensures
        ({
            let r = completed(output, exit);
            &&& text_at(r.output, "text"@) == Some(output)
            &&& exit matches Some(ExitView::Code(c)) ==> field(r.metadata, "exitCode"@) == Some(
                JsonView::Number(NumberView::Unsigned(c as u64)),
            )
            &&& exit matches Some(ExitView::Label(s)) ==> text_at(r.metadata, "exitCode"@) == Some(s)
            &&& exit is None ==> field(r.metadata, "exitCode"@) == Some(JsonView::Null)
            &&& encode_utf8(output).len() <= 30_000 ==> text_at(r.metadata, "output"@) == Some(output)
            &&& encode_utf8(output).len() > 30_000 ==> exists|k: int|
                0 <= k < output.len() && text_at(r.metadata, "output"@) == Some(
                    #[trigger] output.take(k) + "\n\n..."@,
                ) && encode_utf8(output.take(k)).len() <= 30_000 && encode_utf8(
                    output.take(k + 1),
                ).len() > 30_000
        }),
{
    lemma_output_shows(""@, output, ""@);
    lemma_answer_fields_differ();
    lemma_cut_keeps_what_fits(output, 30_000, "\n\n..."@);
    let text = cut_text(output, 30_000, "\n\n..."@);
    let r = completed(output, exit);
    assert(text_at(r.metadata, "output"@) == Some(text));
    if encode_utf8(output).len() > 30_000 {
        let k = choose|k: int|
            0 <= k < output.len() && text == #[trigger] output.take(k) + "\n\n..."@ && encode_utf8(
                output.take(k),
            ).len() <= 30_000 && encode_utf8(output.take(k + 1)).len() > 30_000;
        assert(text == output.take(k) + "\n\n..."@);
    }
}

/// A run that goes on is answered with what its terminal shows and the name under which
/// it can be reached; a run that was stopped with what its terminal shows.
pub proof fn lemma_running_run_is_told(d: RunView, snapshot: Seq<char>)
    ensures
        text_at(detached(d, snapshot).output, "text"@) == Some(snapshot),
        text_at(detached(d, snapshot).output, "message"@) == Some(d.async_id + " detached"@),
        text_at(detached(d, snapshot).metadata, "asyncID"@) == Some(d.async_id),
        field(detached(d, snapshot).metadata, "detached"@) == Some(JsonView::Bool(true)),
        text_at(stopped(d, snapshot).output, "text"@) == Some(snapshot),
        stopped(d, snapshot).metadata == JsonView::Object(detail_entries(d)),
        text_at(removed().output, "text"@) == Some("ok"@),
        field(removed().metadata, "ok"@) == Some(JsonView::Bool(true)),
{
    lemma_output_shows(d.async_id + " detached"@, snapshot, ""@);
    lemma_output_shows(""@, snapshot, ""@);
    lemma_output_shows(""@, "ok"@, ""@);
    lemma_run_fields_differ();
}

/// A request that attached is answered with what the terminal shows, how many bytes were
/// typed from where, how many were put out since, and how the run ended where it did.
pub proof fn lemma_attached_is_told(
    id: Seq<char>,
    wrote: usize,
    source: Seq<char>,
    output_bytes: nat,
    exit: Option<ExitView>,
    snapshot: Seq<char>,
    raw: Option<Seq<u8>>,
)
    requires
        output_bytes <= u64::MAX,
    ensures
        ({
            let r = attached(id, wrote, source, output_bytes, exit, snapshot, raw);
            &&& text_at(r.output, "text"@) == Some(snapshot)
            &&& text_at(r.metadata, "asyncID"@) == Some(id)
            &&& field(r.metadata, "wrote"@) == Some(
                JsonView::Number(NumberView::Unsigned(wrote as u64)),
            )
            &&& text_at(r.metadata, "source"@) == Some(source)
            &&& field(r.metadata, "outputBytes"@) == Some(
                JsonView::Number(NumberView::Unsigned(output_bytes as u64)),
            )
            &&& exit is None ==> field(r.metadata, "exitCode"@) is None && field(
                r.metadata,
                "state"@,
            ) is None && text_at(r.output, "message"@) == Some(""@)
            &&& exit matches Some(e) ==> field(r.metadata, "exitCode"@) == Some(exit_json(e))
                && text_at(r.metadata, "state"@) == Some("stopped"@) && text_at(
                r.output,
                "message"@,
            ) == Some("task exited with code "@ + exit_text(e))
            &&& raw is None ==> field(r.metadata, "rawPretty"@) is None
            &&& raw matches Some(b) ==> text_at(r.metadata, "rawPretty"@) == Some(lossy_text(b))
        }),
{
    lemma_output_shows(""@, snapshot, ""@);
    if let Some(e) = exit {
        lemma_output_shows("task exited with code "@ + exit_text(e), snapshot, ""@);
    }
    lemma_answer_fields_differ();
}

/// A request that comes too late types nothing, and is answered with how the run ended.
pub proof fn lemma_late_attach_is_told(
    o: ExbashView,
    id: Seq<char>,
    exit: ExitView,
    output_bytes: usize,
    snapshot: Seq<char>,
    raw: Option<Seq<u8>>,
)
    ensures
        ({
            let r = stopped_attach(o, id, exit, output_bytes, snapshot, raw);
            let typed = (o.text is Some && o.text->Some_0.len() > 0) || (o.file_path is Some
                && o.file_path->Some_0.len() > 0);
            &&& text_at(r.output, "text"@) == Some(snapshot)
            &&& text_at(r.metadata, "asyncID"@) == Some(id)
            &&& field(r.metadata, "wrote"@) == Some(JsonView::Number(NumberView::Unsigned(0)))
            &&& field(r.metadata, "exitCode"@) == Some(exit_json(exit))
            &&& text_at(r.metadata, "state"@) == Some("stopped"@)
            &&& field(r.metadata, "outputBytes"@) == Some(
                JsonView::Number(NumberView::Unsigned(output_bytes as u64)),
            )
            &&& !typed ==> text_at(r.output, "message"@) == Some(
                "task already exited with code "@ + exit_text(exit),
            )
            &&& typed ==> text_at(r.output, "message"@) == Some(
                "input failed: "@ + ("task already exited with code "@ + exit_text(exit)),
            )
        }),
{
    lemma_output_shows("task already exited with code "@ + exit_text(exit), snapshot, ""@);
    lemma_output_shows(
        "input failed: "@ + ("task already exited with code "@ + exit_text(exit)),
        snapshot,
        ""@,
    );
    lemma_answer_fields_differ();
}

/// What a terminal showed since some time is what it has shown now less what it had shown
/// then.
pub proof fn lemma_shown_since(before: usize, now: usize)
    ensures
        now >= before ==> before + shown_since(before, now) == now,
        now < before ==> shown_since(before, now) == 0,
{
}

/// Whether a text of a request is there and longer than it may be.
pub open spec fn is_too_long(value: Option<Seq<char>>, limit: int) -> bool {
    value is Some && encode_utf8(value->Some_0).len() > limit
}

/// A request is refused for the size of its texts exactly where one is too long: a
/// description over 100 bytes, the name of a run over 30, and any other over 4096. The
/// refusal names the first that is, and says how long it is and may be.
pub proof fn lemma_sizes_are_limited(o: ExbashView)
    ensures
        input_fault(o) is Some <==> {
            ||| is_too_long(o.command, 4096)
            ||| is_too_long(o.description, 100)
            ||| is_too_long(o.async_id, 30)
            ||| is_too_long(o.text, 4096)
            ||| is_too_long(o.shell_profile, 4096)
            ||| is_too_long(o.file_path, 4096)
            ||| is_too_long(o.workdir, 4096)
        },
        is_too_long(o.command, 4096) ==> input_fault(o) == Some(
            "command exceeds 4096 bytes ("@ + dec(encode_utf8(o.command->Some_0).len())
                + " bytes)"@,
        ),
        !is_too_long(o.command, 4096) && is_too_long(o.description, 100) ==> input_fault(o) == Some(
            "description exceeds 100 bytes ("@ + dec(encode_utf8(o.description->Some_0).len())
                + " bytes)"@,
        ),
        !is_too_long(o.command, 4096) && !is_too_long(o.description, 100) && is_too_long(
            o.async_id,
            30,
        ) ==> input_fault(o) == Some(
            "asyncID exceeds 30 bytes ("@ + dec(encode_utf8(o.async_id->Some_0).len())
                + " bytes)"@,
        ),
{
    lemma_limits_are_written();
    assert(encode_utf8(Seq::<char>::empty()).len() == 0);
    if o.file_path is Some && o.file_path->Some_0.len() == 0 {
        assert(o.file_path->Some_0 =~= Seq::<char>::empty());
    }
    if o.workdir is Some && o.workdir->Some_0.len() == 0 {
        assert(o.workdir->Some_0 =~= Seq::<char>::empty());
    }
}

proof fn lemma_limits_are_written()
    ensures
        "command"@ + " exceeds "@ + dec(4096) + " bytes ("@ == "command exceeds 4096 bytes ("@,
        "description"@ + " exceeds "@ + dec(100) + " bytes ("@ == "description exceeds 100 bytes ("@,
        "asyncID"@ + " exceeds "@ + dec(30) + " bytes ("@ == "asyncID exceeds 30 bytes ("@,
{
    reveal_strlit("command");
    reveal_strlit("description");
    reveal_strlit("asyncID");
    reveal_strlit(" exceeds ");
    reveal_strlit(" bytes (");
    reveal_strlit("command exceeds 4096 bytes (");
    reveal_strlit("description exceeds 100 bytes (");
    reveal_strlit("asyncID exceeds 30 bytes (");
    reveal_with_fuel(dec, 5);
    assert(dec(4096) =~= seq!['4', '0', '9', '6']);
    assert(dec(100) =~= seq!['1', '0', '0']);
    assert(dec(30) =~= seq!['3', '0']);
    assert("command"@ + " exceeds "@ + dec(4096) + " bytes ("@ =~= "command exceeds 4096 bytes ("@);
    assert("description"@ + " exceeds "@ + dec(100) + " bytes ("@
        =~= "description exceeds 100 bytes ("@);
    assert("asyncID"@ + " exceeds "@ + dec(30) + " bytes ("@ =~= "asyncID exceeds 30 bytes ("@);
}

/// Two runs are never controlled under one name.
pub proof fn lemma_controllers_differ(id: Seq<char>, other: Seq<char>)
    requires
        controller_of(id) == controller_of(other),
    ensures
        id == other,
{
    reveal_strlit("rec:");
    assert(controller_of(id).skip(4) =~= id);
    assert(controller_of(other).skip(4) =~= other);
}

/// What was typed came from the text, from the file, or from nowhere.
pub proof fn lemma_input_has_its_source(o: ExbashView)
    ensures
        requested_input(o) matches Ok(InputView::Text(_)) ==> requested_source(o) == "text"@,
        requested_input(o) matches Ok(InputView::File(_)) ==> requested_source(o) == "file"@,
        requested_input(o) matches Ok(InputView::Nothing) ==> requested_source(o) == "attach"@,
{
}

} // verus!
