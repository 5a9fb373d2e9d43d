//! Protocol messages exchanged with the session daemon, and their
//! mathematical views.
//!
//! Text carried by the protocol (usernames, prompt replies, prompt and
//! error texts, command words) is held as UTF-8 bytes: the wire format is
//! byte-oriented and the state machine never inspects character structure.

use vstd::prelude::*;

verus! {

/// How the daemon wants an authentication message treated: `Visible` and
/// `Secret` ask the user for a (plain or masked) reply; `Info` and `Error`
/// are display-only and are acknowledged automatically.
#[derive(Clone, Copy, Debug, PartialEq, Eq, Structural)]
pub enum AuthMessageKind {
    Visible,
    Secret,
    Info,
    Error,
}

/// How the daemon reports a failed request: an `Auth` failure restarts the
/// conversation; a `Generic` failure is surfaced and ends it.
#[derive(Clone, Copy, Debug, PartialEq, Eq, Structural)]
pub enum ErrorKind {
    Generic,
    Auth,
}

/// Fatal conditions of the client, by origin: `Connect` (daemon
/// unreachable), `Io` (read or write failed mid-protocol), `Framing`
/// (stream closed inside a frame), `Protocol` (a frame body that is not a
/// well-formed message), `Violation` (a response arrived in a state that
/// does not expect it).
#[derive(Clone, Copy, Debug, PartialEq, Eq, Structural)]
pub enum FatalError {
    Connect,
    Io,
    Framing,
    Protocol,
    Violation,
}

/// A request sent to the daemon.
#[derive(Debug, PartialEq, Eq)]
pub enum Request {
    /// Begin a new authentication conversation for this identity.
    CreateSession { username: Vec<u8> },
    /// Answer the most recent prompt; `None` acknowledges a display-only
    /// (`Info` / `Error`) message.
    PostAuthMessageResponse { response: Option<Vec<u8>> },
    /// Commit to launching the chosen session command.
    StartSession { cmd: Vec<Vec<u8>> },
    /// Abort the conversation in progress.
    CancelSession,
}

/// A response received from the daemon.
#[derive(Debug, PartialEq, Eq)]
pub enum Response {
    /// The daemon requests one more interaction step.
    AuthMessage { kind: AuthMessageKind, text: Vec<u8> },
    /// The preceding request was accepted.
    Success,
    /// The preceding request failed.
    Error { kind: ErrorKind, description: Vec<u8> },
}

/// Mathematical view of a [`Request`].
pub enum RequestView {
    CreateSession { username: Seq<u8> },
    PostAuthMessageResponse { response: Option<Seq<u8>> },
    StartSession { cmd: Seq<Seq<u8>> },
    CancelSession,
}

/// Mathematical view of a [`Response`].
pub enum ResponseView {
    AuthMessage { kind: AuthMessageKind, text: Seq<u8> },
    Success,
    Error { kind: ErrorKind, description: Seq<u8> },
}

impl View for Request {
    type V = RequestView;

    open spec fn view(&self) -> RequestView {
        match self {
            Request::CreateSession { username } => RequestView::CreateSession {
                username: username@,
            },
            Request::PostAuthMessageResponse { response } => RequestView::PostAuthMessageResponse {
                response: match response {
                    Some(r) => Some(r@),
                    None => None,
                },
            },
            Request::StartSession { cmd } => RequestView::StartSession {
                cmd: cmd.deep_view(),
            },
            Request::CancelSession => RequestView::CancelSession,
        }
    }
}

impl View for Response {
    type V = ResponseView;

    open spec fn view(&self) -> ResponseView {
        match self {
            Response::AuthMessage { kind, text } => ResponseView::AuthMessage {
                kind: *kind,
                text: text@,
            },
            Response::Success => ResponseView::Success,
            Response::Error { kind, description } => ResponseView::Error {
                kind: *kind,
                description: description@,
            },
        }
    }
}

} // verus!
