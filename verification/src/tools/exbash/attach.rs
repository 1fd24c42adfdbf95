//! Typing into a run and looking at its terminal.

use crate::bytes::{lossy, lossy_text, utf8_of};
use crate::error::Error;
use crate::json::{entries_view, put, Json, JsonView};
use crate::protocol::{output_of, str_text, tool_output_full, ToolResult, ToolResultView};
use crate::text::{owned, same_text};
use crate::tools::exbash::run::{
    exit_json, exit_shown, exit_text, exit_value, next_watch, opt_exit, unsigned_json, watch_step,
    Exit, ExitView, Watch,
};
use crate::tools::exbash::{
    complain_size, non_empty, too_large, ExbashOptions, ExbashView, INPUT_BYTES_LIMIT,
};
use vstd::prelude::*;
use vstd::utf8::encode_utf8;

verus! {

/// A text with its escape sequences written out, or what is wrong with them.
pub uninterp spec fn unescaped(text: Seq<char>) -> Result<Seq<char>, Seq<char>>;

pub open spec fn result_text(r: Result<String, String>) -> Result<Seq<char>, Seq<char>> {
    match r {
        Ok(s) => Ok(s@),
        Err(m) => Err(m@),
    }
}

/// `unescaper::unescape`: a text in which each escape sequence is the character
/// that it stands for; one that stands for none makes an error with a message.
/// It is a function of the text.
#[verifier::external_body]
fn unescape_text(text: &str) -> (r: Result<String, String>)
    ensures
        result_text(r) == unescaped(text@),
{
    unescaper::unescape(text).map_err(|err| err.to_string())
}

/// What is typed into a run: bytes, what stands in a file, or nothing.
#[derive(Debug)]
pub enum AttachInput {
    Text(Vec<u8>),
    File(String),
    Nothing,
}

pub enum InputView {
    Text(Seq<u8>),
    File(Seq<char>),
    Nothing,
}

impl View for AttachInput {
    type V = InputView;

    open spec fn view(&self) -> InputView {
        match self {
            AttachInput::Text(b) => InputView::Text(b@),
            AttachInput::File(p) => InputView::File(p@),
            AttachInput::Nothing => InputView::Nothing,
        }
    }
}

/// The bytes of a text whose escape sequences were written out.
pub open spec fn text_input(parsed: Result<Seq<char>, Seq<char>>) -> Result<InputView, Seq<char>> {
    match parsed {
        Err(m) => Err("failed to parse attach text escapes: "@ + m),
        Ok(s) => if encode_utf8(s).len() > INPUT_BYTES_LIMIT {
            Err(too_large("text"@, INPUT_BYTES_LIMIT as nat, encode_utf8(s).len()))
        } else {
            Ok(InputView::Text(encode_utf8(s)))
        },
    }
}

/// Takes in a text whose escape sequences were written out.
pub fn take_text(parsed: Result<String, String>) -> (r: Result<AttachInput, Error>)
    ensures
        match r {
            Ok(i) => text_input(result_text(parsed)) == Ok::<InputView, Seq<char>>(i@),
            Err(e) => text_input(result_text(parsed)) == Err::<InputView, Seq<char>>(e@),
        },
{
    match parsed {
        Err(fault) => {
            let mut m = owned("failed to parse attach text escapes: ");
            m.append(fault.as_str());
            Err(Error::new(m))
        },
        Ok(s) => {
            let bytes = utf8_of(s.as_str());
            if bytes.len() > INPUT_BYTES_LIMIT {
                Err(complain_size("text", INPUT_BYTES_LIMIT, bytes.len()))
            } else {
                Ok(AttachInput::Text(bytes))
            }
        },
    }
}

/// What a request types into a run.
pub open spec fn requested_input(o: ExbashView) -> Result<InputView, Seq<char>> {
    match (non_empty(o.text), non_empty(o.file_path)) {
        (Some(_), Some(_)) => Err("Provide only one of text or filePath for attach."@),
        (Some(text), None) => text_input(unescaped(text)),
        (None, Some(path)) => Ok(InputView::File(path)),
        (None, None) => Ok(InputView::Nothing),
    }
}

/// Finds what a request types into a run.
pub fn input_data(options: &ExbashOptions) -> (r: Result<AttachInput, Error>)
    ensures
        match r {
            Ok(i) => requested_input(options@) == Ok::<InputView, Seq<char>>(i@),
            Err(e) => requested_input(options@) == Err::<InputView, Seq<char>>(e@),
        },
{
    match options.text_input() {
        Some(text) => match options.file_path_input() {
            Some(_) => Err(Error::of("Provide only one of text or filePath for attach.")),
            None => take_text(unescape_text(text)),
        },
        None => match options.file_path_input() {
            Some(path) => Ok(AttachInput::File(owned(path))),
            None => Ok(AttachInput::Nothing),
        },
    }
}

/// Checks the bytes of a file that is typed into a run.
pub fn check_file_input(len: usize) -> (r: Result<(), Error>)
    ensures
        match r {
            Ok(()) => len <= INPUT_BYTES_LIMIT,
            Err(e) => len > INPUT_BYTES_LIMIT && e@ == too_large(
                "file input"@,
                INPUT_BYTES_LIMIT as nat,
                len as nat,
            ),
        },
{
    if len > INPUT_BYTES_LIMIT {
        Err(complain_size("file input", INPUT_BYTES_LIMIT, len))
    } else {
        Ok(())
    }
}

/// The run that a request to attach is about.
pub open spec fn attached_run(o: ExbashView) -> Result<Seq<char>, Seq<char>> {
    if o.timeout is Some {
        Err("read_timeout is required instead of timeout for mode attach"@)
    } else {
        match o.async_id {
            None => Err("asyncID is required"@),
            Some(id) => Ok(id),
        }
    }
}

pub fn attach_target(options: &ExbashOptions) -> (r: Result<&str, Error>)
    ensures
        match attached_run(options@) {
            Ok(id) => r matches Ok(s) && s@ == id,
            Err(m) => r matches Err(e) && e@ == m,
        },
{
    if options.timeout.is_some() {
        return Err(Error::of("read_timeout is required instead of timeout for mode attach"));
    }
    options.required_id()
}

/// What a request wanted to type, as far as its words go.
pub open spec fn requested_source(o: ExbashView) -> Seq<char> {
    match (non_empty(o.text) is Some, non_empty(o.file_path) is Some) {
        (true, false) => "text"@,
        (false, true) => "file"@,
        (true, true) => "input"@,
        (false, false) => "attach"@,
    }
}

pub fn requested_input_source(options: &ExbashOptions) -> (r: &'static str)
    ensures
        r@ == requested_source(options@),
{
    let text = options.text_input().is_some();
    let file = options.file_path_input().is_some();
    if text && file {
        "input"
    } else if text {
        "text"
    } else if file {
        "file"
    } else {
        "attach"
    }
}

/// What is said of a run that had stopped before anything was typed.
pub open spec fn stopped_message(exit: ExitView, wanted_input: bool) -> Seq<char> {
    if wanted_input {
        "input failed: "@ + ("task already exited with code "@ + exit_text(exit))
    } else {
        "task already exited with code "@ + exit_text(exit)
    }
}

pub fn stopped_attach_message(exit: &Exit, wanted_input: bool) -> (r: String)
    ensures
        r@ == stopped_message(exit@, wanted_input),
{
    let mut m = owned("task already exited with code ");
    let shown = exit_shown(exit);
    m.append(shown.as_str());
    if wanted_input {
        let mut whole = owned("input failed: ");
        whole.append(m.as_str());
        whole
    } else {
        m
    }
}

/// The entries with the terminal as it is drawn, where that is wanted.
pub open spec fn with_raw(
    entries: Map<Seq<char>, JsonView>,
    raw: Option<Seq<u8>>,
) -> Map<Seq<char>, JsonView> {
    match raw {
        Some(b) => entries.insert("rawPretty"@, JsonView::Text(lossy_text(b))),
        None => entries,
    }
}

fn put_raw(entries: &mut Vec<(String, Json)>, raw: Option<&[u8]>)
    ensures
        entries_view(final(entries)@) == with_raw(
            entries_view(old(entries)@),
            match raw {
                Some(b) => Some(b@),
                None => None,
            },
        ),
{
    if let Some(b) = raw {
        let text = lossy(b);
        put(entries, "rawPretty", Json::Text(text));
    }
}

/// The answer where the run had stopped before anything was typed; `raw` is the
/// terminal as it is drawn, where the request wants it.
pub open spec fn stopped_attach(
    o: ExbashView,
    id: Seq<char>,
    exit: ExitView,
    output_bytes: usize,
    snapshot: Seq<char>,
    raw: Option<Seq<u8>>,
) -> ToolResultView {
    ToolResultView {
        metadata: JsonView::Object(
            with_raw(
                Map::empty().insert("asyncID"@, JsonView::Text(id)).insert(
                    "wrote"@,
                    unsigned_json(0),
                ).insert("source"@, JsonView::Text(requested_source(o))).insert(
                    "outputBytes"@,
                    unsigned_json(output_bytes as nat),
                ).insert("state"@, JsonView::Text("stopped"@)).insert("exitCode"@, exit_json(exit)),
                raw,
            ),
        ),
        output: output_of(
            stopped_message(
                exit,
                non_empty(o.text) is Some || non_empty(o.file_path) is Some,
            ),
            snapshot,
            ""@,
        ),
    }
}

pub fn stopped_attach_result(
    options: &ExbashOptions,
    id: &str,
    exit: &Exit,
    output_bytes: usize,
    snapshot: String,
    raw: Option<&[u8]>,
) -> (r: ToolResult)
    ensures
        r@ == stopped_attach(
            options@,
            id@,
            exit@,
            output_bytes,
            snapshot@,
            match raw {
                Some(b) => Some(b@),
                None => None,
            },
        ),
{
    let wanted = options.text_input().is_some() || options.file_path_input().is_some();
    let message = stopped_attach_message(exit, wanted);
    let mut e: Vec<(String, Json)> = Vec::new();
    put(&mut e, "asyncID", Json::text(id));
    put(&mut e, "wrote", Json::count(0));
    put(&mut e, "source", Json::text(requested_input_source(options)));
    put(&mut e, "outputBytes", Json::count(output_bytes as u64));
    put(&mut e, "state", Json::text("stopped"));
    put(&mut e, "exitCode", exit_value(exit));
    put_raw(&mut e, raw);
    ToolResult { metadata: Json::Object(e), output: tool_output_full(message, snapshot, owned("")) }
}

/// Who controls a terminal that a request types into.
pub open spec fn controller_of(id: Seq<char>) -> Seq<char> {
    "rec:"@ + id
}

pub fn controller_name(id: &str) -> (r: String)
    ensures
        r@ == controller_of(id@),
{
    let mut out = owned("rec:");
    out.append(id);
    out
}

/// The complaint where someone else took the terminal over.
pub open spec fn lost_control(current: Option<Seq<char>>) -> Seq<char> {
    "control lost: someone attached: "@ + (match current {
        Some(c) => c,
        None => "unknown"@,
    })
}

/// The error where someone else took the terminal over.
pub fn control_lost(current: Option<&str>) -> (r: Error)
    ensures
        r@ == lost_control(str_text(current)),
{
    let mut m = owned("control lost: someone attached: ");
    m.append(
        match current {
            Some(c) => c,
            None => "unknown",
        },
    );
    Error::new(m)
}

/// Checks that the terminal is still controlled by the request.
pub fn check_control(current: Option<&str>, controller: &str) -> (r: Result<(), Error>)
    ensures
        if str_text(current) == Some(controller@) {
            r is Ok
        } else {
            r matches Err(e) && e@ == lost_control(str_text(current))
        },
{
    match current {
        Some(c) => if same_text(c, controller) {
            Ok(())
        } else {
            Err(control_lost(current))
        },
        None => Err(control_lost(current)),
    }
}

/// What an attached request does next: it fails as soon as it has lost the
/// control that it took, and otherwise waits like any other.
pub open spec fn attach_step(
    controller: Option<Seq<char>>,
    current: Option<Seq<char>>,
    ended: bool,
    now: u64,
    deadline: u64,
) -> Result<Watch, Seq<char>> {
    if controller is Some && current != controller {
        Err(lost_control(current))
    } else {
        Ok(watch_step(ended, now, deadline))
    }
}

/// Decides what an attached request does next. `controller` is the name under
/// which it took control, where it did.
pub fn next_attach_step(
    controller: Option<&str>,
    current: Option<&str>,
    ended: bool,
    now: u64,
    deadline: u64,
) -> (r: Result<Watch, Error>)
    ensures
        ({
            let step = attach_step(
                str_text(controller),
                str_text(current),
                ended,
                now,
                deadline,
            );
            match r {
                Ok(w) => step == Ok::<Watch, Seq<char>>(w),
                Err(e) => step == Err::<Watch, Seq<char>>(e@),
            }
        }),
{
    match controller {
        Some(c) => match check_control(current, c) {
            Ok(_) => {},
            Err(e) => {
                return Err(e);
            },
        },
        None => {},
    }
    Ok(next_watch(ended, now, deadline))
}

/// The answer after the wait; where the run ended meanwhile it says how.
pub open spec fn attached(
    id: Seq<char>,
    wrote: usize,
    source: Seq<char>,
    output_bytes: nat,
    exit: Option<ExitView>,
    snapshot: Seq<char>,
    raw: Option<Seq<u8>>,
) -> ToolResultView {
    let base = Map::empty().insert("asyncID"@, JsonView::Text(id)).insert(
        "wrote"@,
        unsigned_json(wrote as nat),
    ).insert("source"@, JsonView::Text(source)).insert("outputBytes"@, unsigned_json(output_bytes));
    let ended = match exit {
        Some(e) => base.insert("state"@, JsonView::Text("stopped"@)).insert(
            "exitCode"@,
            exit_json(e),
        ),
        None => base,
    };
    ToolResultView {
        metadata: JsonView::Object(with_raw(ended, raw)),
        output: output_of(
            match exit {
                Some(e) => "task exited with code "@ + exit_text(e),
                None => ""@,
            },
            snapshot,
            ""@,
        ),
    }
}

/// How many bytes a terminal showed since then.
pub open spec fn shown_since(before: usize, now: usize) -> nat {
    if now >= before {
        (now - before) as nat
    } else {
        0
    }
}

pub fn attach_result(
    id: &str,
    wrote: usize,
    source: &str,
    before: usize,
    now: usize,
    exit: &Option<Exit>,
    snapshot: String,
    raw: Option<&[u8]>,
) -> (r: ToolResult)
    ensures
        r@ == attached(
            id@,
            wrote,
            source@,
            shown_since(before, now),
            opt_exit(*exit),
            snapshot@,
            match raw {
                Some(b) => Some(b@),
                None => None,
            },
        ),
{
    let bytes: usize = if now >= before {
        now - before
    } else {
        0
    };
    let mut e: Vec<(String, Json)> = Vec::new();
    put(&mut e, "asyncID", Json::text(id));
    put(&mut e, "wrote", Json::count(wrote as u64));
    put(&mut e, "source", Json::text(source));
    put(&mut e, "outputBytes", Json::count(bytes as u64));
    let message = match exit {
        Some(exit) => {
            put(&mut e, "state", Json::text("stopped"));
            put(&mut e, "exitCode", exit_value(exit));
            let mut m = owned("task exited with code ");
            let shown = exit_shown(exit);
            m.append(shown.as_str());
            m
        },
        None => owned(""),
    };
    put_raw(&mut e, raw);
    ToolResult { metadata: Json::Object(e), output: tool_output_full(message, snapshot, owned("")) }
}

/// How an answer names what was typed.
pub open spec fn source_of(input: InputView) -> Seq<char> {
    match input {
        InputView::Text(_) => "text"@,
        InputView::File(_) => "file"@,
        InputView::Nothing => "attach"@,
    }
}

pub fn input_source(input: &AttachInput) -> (r: &'static str)
    ensures
        r@ == source_of(input@),
{
    match input {
        AttachInput::Text(_) => "text",
        AttachInput::File(_) => "file",
        AttachInput::Nothing => "attach",
    }
}

/// An answer names what was typed as the request did.
pub proof fn lemma_source_is_as_requested(o: ExbashView)
    requires
        requested_input(o) is Ok,
    ensures
        source_of(requested_input(o)->Ok_0) == requested_source(o),
{
}

} // verus!
