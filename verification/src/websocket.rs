//! What the clients of terminals may ask for over a connection.

use crate::shell_manager::{control_refusal, ManagerView, ShellManager};
use crate::text::owned;
use vstd::prelude::*;

verus! {

/// A request of an administrator.
#[derive(Debug)]
pub enum AdminRequest {
    List,
    Detail(String),
    Other,
}

/// What such a request is answered with.
#[derive(Debug)]
pub enum AdminStep {
    Sessions,
    Session(String),
    Refused(String),
}

pub enum AdminStepView {
    Sessions,
    Session(Seq<char>),
    Refused(Seq<char>),
}

impl View for AdminStep {
    type V = AdminStepView;

    open spec fn view(&self) -> AdminStepView {
        match self {
            AdminStep::Sessions => AdminStepView::Sessions,
            AdminStep::Session(pty) => AdminStepView::Session(pty@),
            AdminStep::Refused(m) => AdminStepView::Refused(m@),
        }
    }
}

/// Only what changes nothing is answered.
pub open spec fn admin_step(request: AdminRequest) -> AdminStepView {
    match request {
        AdminRequest::List => AdminStepView::Sessions,
        AdminRequest::Detail(pty) => AdminStepView::Session(pty@),
        AdminRequest::Other => AdminStepView::Refused("remote admin mutation is disabled"@),
    }
}

pub fn handle_admin(request: &AdminRequest) -> (r: AdminStep)
    ensures
        r@ == admin_step(*request),
{
    match request {
        AdminRequest::List => AdminStep::Sessions,
        AdminRequest::Detail(pty) => AdminStep::Session(pty.clone()),
        AdminRequest::Other => AdminStep::Refused(owned("remote admin mutation is disabled")),
    }
}

/// The answer to a first text that is neither a greeting nor a request.
pub fn refuse_first_text() -> (r: String)
    ensures
        r@ == "expected ptyt hello or read-only admin request"@,
{
    owned("expected ptyt hello or read-only admin request")
}

/// A message of a terminal's client.
#[derive(Debug)]
pub enum ClientMessage {
    Bytes,
    Resize { cols: u16, rows: u16 },
    RequestControl,
    Hello,
    Unreadable(String),
    Ping,
    Other,
}

/// What is done about such a message.
#[derive(Debug)]
pub enum ClientStep {
    Write,
    SetSize { cols: u16, rows: u16 },
    TakeControl,
    Complain(String),
    Pong,
    Ignore,
}

pub enum ClientStepView {
    Write,
    SetSize { cols: u16, rows: u16 },
    TakeControl,
    Complain(Seq<char>),
    Pong,
    Ignore,
}

impl View for ClientStep {
    type V = ClientStepView;

    open spec fn view(&self) -> ClientStepView {
        match self {
            ClientStep::Write => ClientStepView::Write,
            ClientStep::SetSize { cols, rows } => ClientStepView::SetSize {
                cols: *cols,
                rows: *rows,
            },
            ClientStep::TakeControl => ClientStepView::TakeControl,
            ClientStep::Complain(m) => ClientStepView::Complain(m@),
            ClientStep::Pong => ClientStepView::Pong,
            ClientStep::Ignore => ClientStepView::Ignore,
        }
    }
}

pub open spec fn client_step(
    m: ManagerView,
    pty: Seq<char>,
    id: Seq<char>,
    message: ClientMessage,
) -> ClientStepView {
    match message {
        ClientMessage::Bytes => ClientStepView::Write,
        ClientMessage::Resize { cols, rows } => ClientStepView::SetSize { cols, rows },
        ClientMessage::RequestControl => match control_refusal(m, pty, id) {
            Some(complaint) => ClientStepView::Complain(complaint),
            None => ClientStepView::TakeControl,
        },
        ClientMessage::Hello => ClientStepView::Ignore,
        ClientMessage::Unreadable(fault) => ClientStepView::Complain(
            "bad client message: "@ + fault@,
        ),
        ClientMessage::Ping => ClientStepView::Pong,
        ClientMessage::Other => ClientStepView::Ignore,
    }
}

/// Decides what is done about a client's message.
pub fn handle_client_message(manager: &ShellManager, pty: &str, id: &str, message: &ClientMessage) -> (r:
    ClientStep)
    ensures
        r@ == client_step(manager@, pty@, id@, *message),
{
    match message {
        ClientMessage::Bytes => ClientStep::Write,
        ClientMessage::Resize { cols, rows } => ClientStep::SetSize { cols: *cols, rows: *rows },
        ClientMessage::RequestControl => match manager.check_control(pty, id) {
            Err(e) => ClientStep::Complain(e.message),
            Ok(()) => ClientStep::TakeControl,
        },
        ClientMessage::Hello => ClientStep::Ignore,
        ClientMessage::Unreadable(fault) => {
            let mut m = owned("bad client message: ");
            m.append(fault.as_str());
            ClientStep::Complain(m)
        },
        ClientMessage::Ping => ClientStep::Pong,
        ClientMessage::Other => ClientStep::Ignore,
    }
}

/// What a client sends into a terminal is typed, a size is set as it is given, a ping is
/// answered, and a message that cannot be read is complained about; who asks for control
/// gets it unless the terminal is locked for others.
pub proof fn lemma_client_is_served(
    m: ManagerView,
    pty: Seq<char>,
    id: Seq<char>,
    message: ClientMessage,
)
    ensures
        ({
            let step = client_step(m, pty, id, message);
            &&& step is Write <==> message is Bytes
            &&& step is Pong <==> message is Ping
            &&& step is Ignore <==> message is Hello || message is Other
            &&& message matches ClientMessage::Resize { cols, rows } ==> step
                == ClientStepView::SetSize { cols, rows }
            &&& step is SetSize ==> message is Resize
            &&& step is TakeControl <==> message is RequestControl && (!m.locked.contains(pty) || id
                == "0"@)
            &&& message matches ClientMessage::Unreadable(fault) ==> step
                == ClientStepView::Complain("bad client message: "@ + fault@)
        }),
{
}

/// An administrator sees the list of terminals and any one of them, and changes none.
pub proof fn lemma_administrator_only_looks(request: AdminRequest)
    ensures
        admin_step(request) is Sessions <==> request is List,
        request matches AdminRequest::Detail(pty) ==> admin_step(request)
            == AdminStepView::Session(pty@),
        admin_step(request) is Refused <==> request is Other,
{
}

} // verus!
