//! What requests of the bridge about runs mean, and what answers them.

use crate::exec::{
    detached_entries, finished, mode_named, removed_json, sent_json, shell_run, titled_value,
    ExecMode,
};
use crate::json::value::{as_sent, pretty};
use crate::json::{field, text_at, JsonView, NumberView};
use crate::text::width::{cut_text, lemma_cut_keeps_what_fits};
use crate::tools::exbash::run::{detail_entries, ExitView, RunView};
use vstd::prelude::*;
use vstd::utf8::encode_utf8;

verus! {

/// The names of a mode: its own, and those under which it is known besides.
pub open spec fn mode_names(mode: ExecMode) -> Seq<Seq<char>> {
    match mode {
        ExecMode::TimeoutAsync => seq!["exec_timeout_async"@],
        ExecMode::Async => seq!["exec_async"@],
        ExecMode::List => seq!["list"@],
        ExecMode::Attach => seq!["attach"@],
        ExecMode::Stop => seq!["exbash_stop"@, "stop"@],
        ExecMode::Remove => seq!["exbash_remove"@, "exbasp_remove"@, "remove"@],
    }
}

proof fn lemma_mode_names_differ()
    ensures
        "exec_timeout_async"@.len() == 18,
        "exec_async"@.len() == 10,
        "list"@.len() == 4,
        "attach"@.len() == 6,
        "exbash_stop"@.len() == 11,
        "stop"@.len() == 4,
        "exbash_remove"@.len() == 13,
        "exbasp_remove"@.len() == 13,
        "remove"@.len() == 6,
        "list"@[0] == 'l',
        "attach"@[0] == 'a',
        "stop"@[0] == 's',
        "exbash_remove"@[5] == 'h',
        "exbasp_remove"@[5] == 'p',
        "remove"@[0] == 'r',
{
    reveal_strlit("exec_timeout_async");
    reveal_strlit("exec_async");
    reveal_strlit("list");
    reveal_strlit("attach");
    reveal_strlit("exbash_stop");
    reveal_strlit("stop");
    reveal_strlit("exbash_remove");
    reveal_strlit("exbasp_remove");
    reveal_strlit("remove");
}

/// Every mode is meant by its names and by nothing else; where none is given the command
/// is waited for.
pub proof fn lemma_modes_are_named(mode: ExecMode, name: Seq<char>, i: int)
    ensures
        mode_named(None) == Ok::<ExecMode, Seq<char>>(ExecMode::TimeoutAsync),
        0 <= i < mode_names(mode).len() ==> mode_named(Some(mode_names(mode)[i])) == Ok::<
            ExecMode,
            Seq<char>,
        >(mode),
        mode_named(Some(name)) matches Ok(m) ==> mode_names(m).contains(name),
{
    lemma_mode_names_differ();
    if let Ok(m) = mode_named(Some(name)) {
        let all = mode_names(m);
        assert(all[0] == name || (all.len() > 1 && all[1] == name) || (all.len() > 2 && all[2]
            == name));
    }
}

/// A command reaches the shell of the system whole, as its last argument, in the directory
/// that was asked for.
pub proof fn lemma_shell_gets_the_command(command: Seq<char>, cwd: Seq<char>, windows: bool)
    ensures
        ({
            let c = shell_run(command, cwd, windows);
            &&& c.args.last() == command
            &&& c.cwd == Some(cwd)
            &&& windows ==> c.program == "powershell.exe"@ && c.args.drop_last() == seq![
                "-NoLogo"@,
                "-NoProfile"@,
                "-NonInteractive"@,
                "-Command"@,
            ]
            &&& !windows ==> c.program == "sh"@ && c.args.drop_last() == seq!["-c"@]
        }),
{
    let c = shell_run(command, cwd, windows);
    if windows {
        assert(c.args.drop_last() =~= seq![
            "-NoLogo"@,
            "-NoProfile"@,
            "-NonInteractive"@,
            "-Command"@,
        ]);
    } else {
        assert(c.args.drop_last() =~= seq!["-c"@]);
    }
}

proof fn lemma_answer_fields_differ()
    ensures
        "output"@.len() == 6,
        "exit"@.len() == 4,
        "description"@.len() == 11,
        "asyncID"@.len() == 7,
        "removed"@.len() == 7,
        "wrote"@.len() == 5,
        "source"@.len() == 6,
        "outputBytes"@.len() == 11,
        "detached"@.len() == 8,
        "asyncTimeout"@.len() == 12,
        "output"@[0] == 'o',
        "description"@[0] == 'd',
        "asyncID"@[0] == 'a',
        "removed"@[0] == 'r',
        "source"@[0] == 's',
        "outputBytes"@[0] == 'o',
{
    reveal_strlit("output");
    reveal_strlit("exit");
    reveal_strlit("description");
    reveal_strlit("asyncID");
    reveal_strlit("removed");
    reveal_strlit("wrote");
    reveal_strlit("source");
    reveal_strlit("outputBytes");
    reveal_strlit("detached");
    reveal_strlit("asyncTimeout");
}

/// A run that ended is answered with all of its output under what describes it; what is
/// known of it holds the output up to a length, and how the run ended.
pub proof fn lemma_finished_run_is_told(
    description: Seq<char>,
    output: Seq<char>,
    exit: Option<ExitView>,
)
    ensures
        ({
            let r = finished(description, output, exit);
            &&& r.title == description
            &&& r.output == output
            &&& text_at(r.metadata, "description"@) == Some(description)
            &&& encode_utf8(output).len() <= 30_000 ==> text_at(r.metadata, "output"@) == Some(
                output,
            )
            &&& encode_utf8(output).len() > 30_000 ==> exists|k: int|
                0 <= k < output.len() && text_at(r.metadata, "output"@) == Some(
                    #[trigger] output.take(k) + "\n\n..."@,
                ) && encode_utf8(output.take(k)).len() <= 30_000 && encode_utf8(
                    output.take(k + 1),
                ).len() > 30_000
            &&& exit is None ==> field(r.metadata, "exit"@) == Some(JsonView::Null)
            &&& exit matches Some(ExitView::Code(c)) ==> field(r.metadata, "exit"@) == Some(
                JsonView::Number(NumberView::Unsigned(c as u64)),
            )
            &&& exit matches Some(ExitView::Label(s)) ==> text_at(r.metadata, "exit"@) == Some(s)
        }),
{
    lemma_answer_fields_differ();
    lemma_cut_keeps_what_fits(output, 30_000, "\n\n..."@);
    let text = cut_text(output, 30_000, "\n\n..."@);
    let r = finished(description, output, exit);
    assert(text_at(r.metadata, "output"@) == Some(text));
    if encode_utf8(output).len() > 30_000 {
        let k = choose|k: int|
            0 <= k < output.len() && text == #[trigger] output.take(k) + "\n\n..."@ && encode_utf8(
                output.take(k),
            ).len() <= 30_000 && encode_utf8(output.take(k + 1)).len() > 30_000;
        assert(text == output.take(k) + "\n\n..."@);
    }
}

/// A run that goes on is told with all that is known of it, and with how long it will be
/// waited for.
pub proof fn lemma_detached_run_is_told(d: RunView, async_timeout: u64, key: Seq<char>)
    ensures
        field(detached_entries(d, async_timeout), "detached"@) == Some(JsonView::Bool(true)),
        field(detached_entries(d, async_timeout), "asyncTimeout"@) == Some(
            JsonView::Number(NumberView::Unsigned(async_timeout)),
        ),
        key != "detached"@ && key != "asyncTimeout"@ ==> field(
            detached_entries(d, async_timeout),
            key,
        ) == field(JsonView::Object(detail_entries(d)), key),
{
    lemma_answer_fields_differ();
}

/// What was typed into a run, and that a run was removed, are told with the run's name.
pub proof fn lemma_typing_is_told(
    id: Seq<char>,
    wrote: usize,
    source: Seq<char>,
    output_bytes: nat,
)
    requires
        output_bytes <= u64::MAX,
    ensures
        text_at(sent_json(id, wrote, source, output_bytes), "asyncID"@) == Some(id),
        field(sent_json(id, wrote, source, output_bytes), "wrote"@) == Some(
            JsonView::Number(NumberView::Unsigned(wrote as u64)),
        ),
        text_at(sent_json(id, wrote, source, output_bytes), "source"@) == Some(source),
        field(sent_json(id, wrote, source, output_bytes), "outputBytes"@) == Some(
            JsonView::Number(NumberView::Unsigned(output_bytes as u64)),
        ),
        text_at(removed_json(id), "asyncID"@) == Some(id),
        field(removed_json(id), "removed"@) == Some(JsonView::Bool(true)),
{
    lemma_answer_fields_differ();
}

/// An answer that shows a value has its title and the value itself, and as text the value
/// as people like to read it.
pub proof fn lemma_value_is_shown(title: Seq<char>, value: JsonView)
    ensures
        titled_value(title, value).title == title,
        titled_value(title, value).metadata == value,
        titled_value(title, value).output == pretty(as_sent(value)),
{
}

} // verus!
