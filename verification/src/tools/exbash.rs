//! Commands that run in terminals of their own: starting them, watching them and
//! typing into them.
//!
//! The terminals, and waiting for them, are up to the caller.

pub mod attach;
pub mod laws;
pub mod run;

use crate::error::Error;
use crate::context::{resolved_in, PlaceView, ToolContext};
use crate::protocol::{opt_text, str_text};
use crate::text::number::{append_dec, dec};
use crate::text::{chars_of, owned, same_text};
use vstd::prelude::*;
use vstd::utf8::encode_utf8;

verus! {

/// How long a run is watched where a request does not say.
pub const READ_TIMEOUT: u64 = 10_000;

/// The most bytes that a command, a path or an input may have.
pub const INPUT_BYTES_LIMIT: usize = 4096;

pub const DESCRIPTION_BYTES_LIMIT: usize = 100;

pub const ASYNC_ID_BYTES_LIMIT: usize = 30;

/// A request to run or control a command.
#[derive(Debug)]
pub struct ExbashOptions {
    pub mode: Option<String>,
    pub shell_profile: Option<String>,
    pub command: Option<String>,
    pub description: Option<String>,
    pub timeout: Option<i64>,
    pub read_timeout: Option<u64>,
    pub async_id: Option<String>,
    pub text: Option<String>,
    pub file_path: Option<String>,
    pub workdir: Option<String>,
    pub show_raw_pretty: bool,
}

#[verifier::ext_equal]
pub struct ExbashView {
    pub mode: Option<Seq<char>>,
    pub shell_profile: Option<Seq<char>>,
    pub command: Option<Seq<char>>,
    pub description: Option<Seq<char>>,
    pub timeout: Option<i64>,
    pub read_timeout: Option<u64>,
    pub async_id: Option<Seq<char>>,
    pub text: Option<Seq<char>>,
    pub file_path: Option<Seq<char>>,
    pub workdir: Option<Seq<char>>,
    pub show_raw_pretty: bool,
}

impl View for ExbashOptions {
    type V = ExbashView;

    open spec fn view(&self) -> ExbashView {
        ExbashView {
            mode: opt_text(self.mode),
            shell_profile: opt_text(self.shell_profile),
            command: opt_text(self.command),
            description: opt_text(self.description),
            timeout: self.timeout,
            read_timeout: self.read_timeout,
            async_id: opt_text(self.async_id),
            text: opt_text(self.text),
            file_path: opt_text(self.file_path),
            workdir: opt_text(self.workdir),
            show_raw_pretty: self.show_raw_pretty,
        }
    }
}

/// What a finished command left behind.
#[derive(Debug)]
pub struct ExbashOutput {
    pub code: i32,
    pub stdout: String,
    pub stderr: String,
    pub timed_out: bool,
}

/// The complaint about an input that is too large.
pub open spec fn too_large(name: Seq<char>, limit: nat, len: nat) -> Seq<char> {
    name + " exceeds "@ + dec(limit) + " bytes ("@ + dec(len) + " bytes)"@
}

pub open spec fn size_fault(name: Seq<char>, value: Option<Seq<char>>, limit: usize) -> Option<
    Seq<char>,
> {
    match value {
        None => None,
        Some(s) => if encode_utf8(s).len() > limit {
            Some(too_large(name, limit as nat, encode_utf8(s).len()))
        } else {
            None
        },
    }
}

/// An optional text that is not empty.
pub open spec fn non_empty(s: Option<Seq<char>>) -> Option<Seq<char>> {
    match s {
        Some(s) => if s.len() > 0 {
            Some(s)
        } else {
            None
        },
        None => None,
    }
}

pub fn complain_size(name: &str, limit: usize, len: usize) -> (r: Error)
    ensures
        r@ == too_large(name@, limit as nat, len as nat),
{
    let mut m = owned(name);
    m.append(" exceeds ");
    append_dec(&mut m, limit as u64);
    m.append(" bytes (");
    append_dec(&mut m, len as u64);
    m.append(" bytes)");
    Error::new(m)
}

fn check_size(name: &str, value: Option<&str>, limit: usize) -> (r: Option<Error>)
    ensures
        match r {
            Some(e) => size_fault(name@, str_text(value), limit) == Some(e@),
            None => size_fault(name@, str_text(value), limit) is None,
        },
{
    match value {
        None => None,
        Some(s) => {
            let len: usize = s.as_bytes().len();
            if len > limit {
                Some(complain_size(name, limit, len))
            } else {
                None
            }
        },
    }
}

/// A lent form of an optional text.
pub fn lent(s: &Option<String>) -> (r: Option<&str>)
    ensures
        str_text(r) == opt_text(*s),
{
    match s {
        Some(s) => Some(s.as_str()),
        None => None,
    }
}

/// A lent form of an optional text that is not empty.
pub fn lent_filled(s: &Option<String>) -> (r: Option<&str>)
    ensures
        str_text(r) == non_empty(opt_text(*s)),
{
    match s {
        Some(s) => {
            let all = chars_of(s.as_str());
            if all.len() > 0 {
                Some(s.as_str())
            } else {
                None
            }
        },
        None => None,
    }
}

pub open spec fn first_fault(a: Option<Seq<char>>, b: Option<Seq<char>>) -> Option<Seq<char>> {
    match a {
        Some(m) => Some(m),
        None => b,
    }
}

/// The first complaint about the sizes of what a request holds.
pub open spec fn input_fault(o: ExbashView) -> Option<Seq<char>> {
    first_fault(
        size_fault("command"@, o.command, INPUT_BYTES_LIMIT),
        first_fault(
            size_fault("description"@, o.description, DESCRIPTION_BYTES_LIMIT),
            first_fault(
                size_fault("asyncID"@, o.async_id, ASYNC_ID_BYTES_LIMIT),
                first_fault(
                    size_fault("text"@, o.text, INPUT_BYTES_LIMIT),
                    first_fault(
                        size_fault("shell"@, o.shell_profile, INPUT_BYTES_LIMIT),
                        first_fault(
                            size_fault("filePath"@, non_empty(o.file_path), INPUT_BYTES_LIMIT),
                            size_fault("workdir"@, non_empty(o.workdir), INPUT_BYTES_LIMIT),
                        ),
                    ),
                ),
            ),
        ),
    )
}

/// What a request asks for.
#[derive(Clone, Copy, Debug, PartialEq, Eq, Structural)]
pub enum ExbashMode {
    Run,
    Shell,
    Attach,
    List,
    Stop,
    Remove,
}

pub open spec fn mode_named(mode: Option<Seq<char>>) -> Result<ExbashMode, Seq<char>> {
    let name = match mode {
        Some(m) => m,
        None => ""@,
    };
    if name == "run"@ {
        Ok(ExbashMode::Run)
    } else if name == "shell"@ {
        Ok(ExbashMode::Shell)
    } else if name == "attach"@ {
        Ok(ExbashMode::Attach)
    } else if name == "list"@ {
        Ok(ExbashMode::List)
    } else if name == "stop"@ {
        Ok(ExbashMode::Stop)
    } else if name == "remove"@ {
        Ok(ExbashMode::Remove)
    } else if name == ""@ {
        Err("exbash mode is required"@)
    } else {
        Err("unknown exbash mode: "@ + name)
    }
}

/// What a request asks for, unless it holds too much.
pub open spec fn requested_mode(o: ExbashView) -> Result<ExbashMode, Seq<char>> {
    match input_fault(o) {
        Some(m) => Err(m),
        None => mode_named(o.mode),
    }
}

/// Checks a request and tells what it asks for.
pub fn exbash(options: &ExbashOptions) -> (r: Result<ExbashMode, Error>)
    ensures
        match r {
            Ok(mode) => requested_mode(options@) == Ok::<ExbashMode, Seq<char>>(mode),
            Err(e) => requested_mode(options@) == Err::<ExbashMode, Seq<char>>(e@),
        },
{
    if let Some(e) = options.validate_input_limits() {
        return Err(e);
    }
    let mode = match &options.mode {
        Some(m) => m.as_str(),
        None => "",
    };
    if same_text(mode, "run") {
        Ok(ExbashMode::Run)
    } else if same_text(mode, "shell") {
        Ok(ExbashMode::Shell)
    } else if same_text(mode, "attach") {
        Ok(ExbashMode::Attach)
    } else if same_text(mode, "list") {
        Ok(ExbashMode::List)
    } else if same_text(mode, "stop") {
        Ok(ExbashMode::Stop)
    } else if same_text(mode, "remove") {
        Ok(ExbashMode::Remove)
    } else if same_text(mode, "") {
        Err(Error::of("exbash mode is required"))
    } else {
        let mut m = owned("unknown exbash mode: ");
        m.append(mode);
        Err(Error::new(m))
    }
}

/// How long a run may last; `None` where there is no limit.
pub open spec fn run_limit(timeout: Option<i64>) -> Result<Option<u64>, Seq<char>> {
    match timeout {
        None => Ok(None),
        Some(ms) => if ms == -1 || ms == 0 {
            Ok(None)
        } else if ms < -1 {
            Err("timeout must be -1 or non-negative"@)
        } else {
            Ok(Some(ms as u64))
        },
    }
}

/// The directory in which a command runs.
pub open spec fn run_directory(place: PlaceView, workdir: Option<Seq<char>>) -> Seq<char> {
    match non_empty(workdir) {
        Some(w) => resolved_in(place, w),
        None => place.directory,
    }
}

/// How people see a run: by its description, else its command, else its mode.
pub open spec fn shown_as(o: ExbashView) -> Seq<char> {
    match o.description {
        Some(d) => d,
        None => match o.command {
            Some(c) => c,
            None => match o.mode {
                Some(m) => m,
                None => "exbash"@,
            },
        },
    }
}

impl ExbashOptions {
    /// The first complaint about the sizes of what the request holds.
    pub fn validate_input_limits(&self) -> (r: Option<Error>)
        ensures
            match r {
                Some(e) => input_fault(self@) == Some(e@),
                None => input_fault(self@) is None,
            },
    {
        if let Some(e) = check_size("command", lent(&self.command), INPUT_BYTES_LIMIT) {
            return Some(e);
        }
        if let Some(e) = check_size(
            "description",
            lent(&self.description),
            DESCRIPTION_BYTES_LIMIT,
        ) {
            return Some(e);
        }
        if let Some(e) = check_size("asyncID", lent(&self.async_id), ASYNC_ID_BYTES_LIMIT) {
            return Some(e);
        }
        if let Some(e) = check_size("text", lent(&self.text), INPUT_BYTES_LIMIT) {
            return Some(e);
        }
        if let Some(e) = check_size("shell", lent(&self.shell_profile), INPUT_BYTES_LIMIT) {
            return Some(e);
        }
        if let Some(e) = check_size("filePath", lent_filled(&self.file_path), INPUT_BYTES_LIMIT) {
            return Some(e);
        }
        check_size("workdir", lent_filled(&self.workdir), INPUT_BYTES_LIMIT)
    }

    /// How long the run may last.
    pub fn timeout_ms(&self) -> (r: Result<Option<u64>, Error>)
        ensures
            match r {
                Ok(limit) => run_limit(self@.timeout) == Ok::<Option<u64>, Seq<char>>(limit),
                Err(e) => run_limit(self@.timeout) == Err::<Option<u64>, Seq<char>>(e@),
            },
    {
        match self.timeout {
            None => Ok(None),
            Some(ms) => if ms == -1 || ms == 0 {
                Ok(None)
            } else if ms < -1 {
                Err(Error::of("timeout must be -1 or non-negative"))
            } else {
                Ok(Some(ms as u64))
            },
        }
    }

    pub fn text_input(&self) -> (r: Option<&str>)
        ensures
            str_text(r) == non_empty(self@.text),
    {
        lent_filled(&self.text)
    }

    pub fn file_path_input(&self) -> (r: Option<&str>)
        ensures
            str_text(r) == non_empty(self@.file_path),
    {
        lent_filled(&self.file_path)
    }

    /// How long the run is watched before the call returns.
    pub fn read_timeout_ms(&self) -> (r: u64)
        ensures
            r == match self@.read_timeout {
                Some(ms) => ms,
                None => READ_TIMEOUT,
            },
    {
        match self.read_timeout {
            Some(ms) => ms,
            None => READ_TIMEOUT,
        }
    }

    /// The directory in which the command runs.
    pub fn cwd(&self, ctx: &ToolContext) -> (r: String)
        ensures
            r@ == run_directory(ctx@, self@.workdir),
    {
        match lent_filled(&self.workdir) {
            Some(w) => ctx.resolve(w),
            None => ctx.directory.clone(),
        }
    }

    /// How people see the run.
    pub fn shown_description(&self) -> (r: String)
        ensures
            r@ == shown_as(self@),
    {
        match &self.description {
            Some(d) => d.clone(),
            None => match &self.command {
                Some(c) => c.clone(),
                None => match &self.mode {
                    Some(m) => m.clone(),
                    None => owned("exbash"),
                },
            },
        }
    }

    /// The command that a request runs, which it must name.
    pub fn required_command(&self) -> (r: Result<&str, Error>)
        ensures
            match self@.command {
                Some(c) => r matches Ok(s) && s@ == c,
                None => r matches Err(e) && e@ == "command is required"@,
            },
    {
        match &self.command {
            Some(c) => Ok(c.as_str()),
            None => Err(Error::of("command is required")),
        }
    }

    /// The run that the request is about.
    pub fn required_id(&self) -> (r: Result<&str, Error>)
        ensures
            match self@.async_id {
                Some(id) => r matches Ok(s) && s@ == id,
                None => r matches Err(e) && e@ == "asyncID is required"@,
            },
    {
        match &self.async_id {
            Some(id) => Ok(id.as_str()),
            None => Err(Error::of("asyncID is required")),
        }
    }
}

/// A request that is accepted holds no more than the limits allow.
pub proof fn lemma_accepted_input_is_small(o: ExbashView)
    requires
        requested_mode(o) is Ok,
    ensures
        o.command is Some ==> encode_utf8(o.command->Some_0).len() <= INPUT_BYTES_LIMIT,
        o.description is Some ==> encode_utf8(o.description->Some_0).len()
            <= DESCRIPTION_BYTES_LIMIT,
        o.async_id is Some ==> encode_utf8(o.async_id->Some_0).len() <= ASYNC_ID_BYTES_LIMIT,
        o.text is Some ==> encode_utf8(o.text->Some_0).len() <= INPUT_BYTES_LIMIT,
        o.shell_profile is Some ==> encode_utf8(o.shell_profile->Some_0).len()
            <= INPUT_BYTES_LIMIT,
        non_empty(o.file_path) is Some ==> encode_utf8(o.file_path->Some_0).len()
            <= INPUT_BYTES_LIMIT,
        non_empty(o.workdir) is Some ==> encode_utf8(o.workdir->Some_0).len()
            <= INPUT_BYTES_LIMIT,
{
}

/// Why a run cannot be found.
pub fn run_not_found(id: &str) -> (r: Error)
    ensures
        r@ == "Async run not found: "@ + id@,
{
    let mut m = owned("Async run not found: ");
    m.append(id);
    Error::new(m)
}

} // verus!
