//! The authentication conversation: a state machine driven by daemon
//! responses and user keystrokes.
//!
//! The machine owns the greeter-side state of one connection: the current
//! protocol state, the identity and reply buffers the user is editing,
//! which field has focus, the prompt on display, and the window title.
//! Every transition is a pure function of the old state and one event,
//! and each executable step is proved equal to its specification-level
//! transition function.
//!
//! A display-only (`Info` / `Error`) authentication message never waits
//! for input: the step that receives it hands back the empty
//! acknowledgment to send, so the transient pending state is not
//! observable between steps.

use vstd::prelude::*;
use vstd::slice::slice_to_vec;
use vstd::string::StringSliceAdditionalSpecFns;
use crate::msg::{Request, RequestView, Response, ResponseView, AuthMessageKind, ErrorKind,
    FatalError};
use crate::codec::ascii_bytes;

verus! {

/// Protocol state of one conversation.  `AwaitingCreateAck`,
/// `AwaitingPromptAck` and `LaunchRequested` are the states with a
/// request outstanding; the daemon owes exactly one response there.
#[derive(Clone, Copy, Debug, PartialEq, Eq, Structural)]
pub enum ConvState {
    /// No session created yet; the identity field is being collected.
    Unauthenticated,
    /// `create_session` sent, response pending.
    AwaitingCreateAck,
    /// A `visible` prompt is on display and collects a plain reply.
    PromptVisible,
    /// A `secret` prompt is on display and collects a masked reply.
    PromptSecret,
    /// `post_auth_message_response` sent, response pending.
    AwaitingPromptAck,
    /// Authentication succeeded; a launch may be issued.
    Authenticated,
    /// `start_session` sent; only `success` may follow.
    LaunchRequested,
    /// A generic daemon error ended the conversation.
    FailedGeneric,
}

/// Which text field the next keystroke edits.
#[derive(Clone, Copy, Debug, PartialEq, Eq, Structural)]
pub enum Field {
    Username,
    Password,
}

/// One discrete user input event.
#[derive(Clone, Copy, Debug, PartialEq, Eq, Structural)]
pub enum Key {
    /// A character typed into the focused field.
    Char(u8),
    /// Delete the last character of the focused field.
    Backspace,
    /// Move focus to the other field.
    FocusSwitch,
    /// Submit the focused field.
    Submit,
}

/// What the caller must do after a response was handled.
#[derive(Debug, PartialEq, Eq)]
pub enum Step {
    /// Nothing to send; render the new state.
    Idle,
    /// Send this request now.
    Send(Request),
    /// The session handoff is complete: exit successfully.
    Launched,
}

/// Mathematical view of a [`Step`].
pub enum StepView {
    Idle,
    Send(RequestView),
    Launched,
}

impl View for Step {
    type V = StepView;

    open spec fn view(&self) -> StepView {
        match self {
            Step::Idle => StepView::Idle,
            Step::Send(q) => StepView::Send(q@),
            Step::Launched => StepView::Launched,
        }
    }
}

/// Mathematical view of a [`Conversation`].
pub struct ConversationView {
    pub state: ConvState,
    pub default_user: Option<Seq<u8>>,
    pub username: Seq<u8>,
    pub password: Seq<u8>,
    pub focus: Field,
    pub prompt_kind: Option<AuthMessageKind>,
    pub prompt: Seq<u8>,
    pub title: Seq<u8>,
}

pub open spec fn title_login() -> Seq<u8> {
    ascii_bytes("Login"@)
}

pub open spec fn title_failed() -> Seq<u8> {
    ascii_bytes("Login failed"@)
}

/// The fixed privileged pre-exec wrapper that leads every launch command.
pub open spec fn wrapper_path() -> Seq<u8> {
    ascii_bytes("/etc/ly/wsetup.sh"@)
}

/// The `cmd` array of a launch: the wrapper, then the chosen session's
/// execution command.
pub open spec fn launch_cmd(exec: Seq<u8>) -> Seq<Seq<u8>> {
    seq![wrapper_path(), exec]
}

/// A request is outstanding exactly in the three awaiting states.
pub open spec fn outstanding(st: ConvState) -> bool {
    st == ConvState::AwaitingCreateAck || st == ConvState::AwaitingPromptAck || st
        == ConvState::LaunchRequested
}

/// The state machine's starting point.  With a configured default
/// identity the conversation opens immediately: the identity is filled
/// in, `create_session` goes out at once, and focus rests on the reply
/// field.
pub open spec fn init_conv(default_user: Option<Seq<u8>>) -> (ConversationView, Option<
    RequestView,
>) {
    match default_user {
        Some(u) => (
            ConversationView {
                state: ConvState::AwaitingCreateAck,
                default_user: Some(u),
                username: u,
                password: Seq::empty(),
                focus: Field::Password,
                prompt_kind: None,
                prompt: Seq::empty(),
                title: title_login(),
            },
            Some(RequestView::CreateSession { username: u }),
        ),
        None => (
            ConversationView {
                state: ConvState::Unauthenticated,
                default_user: None,
                username: Seq::empty(),
                password: Seq::empty(),
                focus: Field::Username,
                prompt_kind: None,
                prompt: Seq::empty(),
                title: title_login(),
            },
            None,
        ),
    }
}

/// Transition on one keystroke: the new state, and the request to send
/// if the keystroke completed one.
///
/// Submitting an empty identity sends nothing; submitting the reply
/// field with an empty identity only moves focus back to the identity
/// field.  A reply can be submitted only while a prompt is on display,
/// and a session can be created only from `Unauthenticated`: keystrokes
/// never send while a request is outstanding.
pub open spec fn step_key(c: ConversationView, k: Key) -> (ConversationView, Option<RequestView>) {
    match k {
        Key::Char(b) => if c.focus == Field::Username {
            (ConversationView { username: c.username.push(b), ..c }, None)
        } else if c.state == ConvState::PromptVisible || c.state == ConvState::PromptSecret {
            (ConversationView { password: c.password.push(b), ..c }, None)
        } else {
            (c, None)
        },
        Key::Backspace => if c.focus == Field::Username {
            if c.username.len() > 0 {
                (ConversationView { username: c.username.drop_last(), ..c }, None)
            } else {
                (c, None)
            }
        } else if (c.state == ConvState::PromptVisible || c.state == ConvState::PromptSecret)
            && c.password.len() > 0 {
            (ConversationView { password: c.password.drop_last(), ..c }, None)
        } else {
            (c, None)
        },
        Key::FocusSwitch => (
            ConversationView {
                focus: if c.focus == Field::Username {
                    Field::Password
                } else {
                    Field::Username
                },
                ..c
            },
            None,
        ),
        Key::Submit => if c.focus == Field::Username {
            if c.username.len() == 0 {
                (c, None)
            } else if c.state == ConvState::Unauthenticated {
                (
                    ConversationView {
                        state: ConvState::AwaitingCreateAck,
                        focus: Field::Password,
                        ..c
                    },
                    Some(RequestView::CreateSession { username: c.username }),
                )
            } else {
                (c, None)
            }
        } else {
            if c.username.len() == 0 {
                (ConversationView { focus: Field::Username, ..c }, None)
            } else if c.state == ConvState::PromptVisible || c.state == ConvState::PromptSecret {
                (
                    ConversationView { state: ConvState::AwaitingPromptAck, ..c },
                    Some(RequestView::PostAuthMessageResponse { response: Some(c.password) }),
                )
            } else {
                (c, None)
            }
        },
    }
}

/// Transition on one daemon response.  `None` is a protocol violation: a
/// response in a state that does not expect one, or anything but
/// `success` after the launch was requested.
pub open spec fn step_response(c: ConversationView, r: ResponseView) -> Option<(
    ConversationView,
    StepView,
)> {
    if !outstanding(c.state) {
        None
    } else if c.state == ConvState::LaunchRequested {
        match r {
            ResponseView::Success => Some((c, StepView::Launched)),
            _ => None,
        }
    } else {
        match r {
            ResponseView::Success => Some(
                (ConversationView { state: ConvState::Authenticated, ..c }, StepView::Idle),
            ),
            ResponseView::AuthMessage { kind, text } => match kind {
                AuthMessageKind::Visible => Some(
                    (
                        ConversationView {
                            state: ConvState::PromptVisible,
                            prompt_kind: Some(AuthMessageKind::Visible),
                            prompt: text,
                            focus: Field::Password,
                            ..c
                        },
                        StepView::Idle,
                    ),
                ),
                AuthMessageKind::Secret => Some(
                    (
                        ConversationView {
                            state: ConvState::PromptSecret,
                            prompt_kind: Some(AuthMessageKind::Secret),
                            prompt: text,
                            focus: Field::Password,
                            ..c
                        },
                        StepView::Idle,
                    ),
                ),
                AuthMessageKind::Info | AuthMessageKind::Error => Some(
                    (
                        ConversationView {
                            state: ConvState::AwaitingPromptAck,
                            prompt_kind: Some(kind),
                            prompt: text,
                            ..c
                        },
                        StepView::Send(RequestView::PostAuthMessageResponse { response: None }),
                    ),
                ),
            },
            ResponseView::Error { kind, description } => match kind {
                ErrorKind::Generic => Some(
                    (
                        ConversationView {
                            state: ConvState::FailedGeneric,
                            title: description,
                            ..c
                        },
                        StepView::Idle,
                    ),
                ),
                ErrorKind::Auth => match c.default_user {
                    Some(u) => Some(
                        (
                            ConversationView {
                                state: ConvState::AwaitingCreateAck,
                                default_user: Some(u),
                                username: u,
                                password: Seq::empty(),
                                focus: Field::Password,
                                prompt_kind: None,
                                prompt: Seq::empty(),
                                title: title_failed(),
                            },
                            StepView::Send(RequestView::CreateSession { username: u }),
                        ),
                    ),
                    None => Some(
                        (
                            ConversationView {
                                state: ConvState::Unauthenticated,
                                default_user: None,
                                username: Seq::empty(),
                                password: Seq::empty(),
                                focus: Field::Username,
                                prompt_kind: None,
                                prompt: Seq::empty(),
                                title: title_failed(),
                            },
                            StepView::Idle,
                        ),
                    ),
                },
            },
        }
    }
}

/// Greeter-side state of one conversation.
pub struct Conversation {
    state: ConvState,
    default_user: Option<Vec<u8>>,
    username: Vec<u8>,
    password: Vec<u8>,
    focus: Field,
    prompt_kind: Option<AuthMessageKind>,
    prompt: Vec<u8>,
    title: Vec<u8>,
}

impl View for Conversation {
    type V = ConversationView;

    closed spec fn view(&self) -> ConversationView {
        ConversationView {
            state: self.state,
            default_user: match self.default_user {
                Some(ref u) => Some(u@),
                None => None,
            },
            username: self.username@,
            password: self.password@,
            focus: self.focus,
            prompt_kind: self.prompt_kind,
            prompt: self.prompt@,
            title: self.title@,
        }
    }
}

fn title_login_vec() -> (v: Vec<u8>)
    ensures
        v@ == title_login(),
{
    let s = "Login";
    proof {
        reveal_strlit("Login");
        assert(vstd::string::is_ascii(s));
        vstd::string::is_ascii_spec_bytes(s);
        assert(s.spec_bytes() =~= title_login());
    }
    slice_to_vec(s.as_bytes())
}

fn title_failed_vec() -> (v: Vec<u8>)
    ensures
        v@ == title_failed(),
{
    let s = "Login failed";
    proof {
        reveal_strlit("Login failed");
        assert(vstd::string::is_ascii(s));
        vstd::string::is_ascii_spec_bytes(s);
        assert(s.spec_bytes() =~= title_failed());
    }
    slice_to_vec(s.as_bytes())
}

fn wrapper_path_vec() -> (v: Vec<u8>)
    ensures
        v@ == wrapper_path(),
{
    let s = "/etc/ly/wsetup.sh";
    proof {
        reveal_strlit("/etc/ly/wsetup.sh");
        assert(vstd::string::is_ascii(s));
        vstd::string::is_ascii_spec_bytes(s);
        assert(s.spec_bytes() =~= wrapper_path());
    }
    slice_to_vec(s.as_bytes())
}

fn dup_bytes(v: &Vec<u8>) -> (out: Vec<u8>)
    ensures
        out@ == v@,
{
    slice_to_vec(v.as_slice())
}

impl Conversation {
    /// Start a conversation, with the configured default identity if
    /// there is one; the returned request, if any, must be sent at once.
    pub fn new(default_user: Option<Vec<u8>>) -> (res: (Conversation, Option<Request>))
        ensures
            res.0@ == init_conv(match default_user {
                Some(ref u) => Some(u@),
                None => None::<Seq<u8>>,
            }).0,
            match res.1 {
                Some(q) => init_conv(match default_user {
                    Some(ref u) => Some(u@),
                    None => None::<Seq<u8>>,
                }).1 == Some(q@),
                None => init_conv(match default_user {
                    Some(ref u) => Some(u@),
                    None => None::<Seq<u8>>,
                }).1 is None,
            },
    {
        match default_user {
            Some(u) => {
                let name = dup_bytes(&u);
                let wire = dup_bytes(&u);
                let conv = Conversation {
                    state: ConvState::AwaitingCreateAck,
                    default_user: Some(u),
                    username: name,
                    password: Vec::new(),
                    focus: Field::Password,
                    prompt_kind: None,
                    prompt: Vec::new(),
                    title: title_login_vec(),
                };
                (conv, Some(Request::CreateSession { username: wire }))
            }
            None => {
                let conv = Conversation {
                    state: ConvState::Unauthenticated,
                    default_user: None,
                    username: Vec::new(),
                    password: Vec::new(),
                    focus: Field::Username,
                    prompt_kind: None,
                    prompt: Vec::new(),
                    title: title_login_vec(),
                };
                (conv, None)
            }
        }
    }

    /// Feed one keystroke; the returned request, if any, must be sent.
    pub fn handle_key(&mut self, k: Key) -> (out: Option<Request>)
        ensures
            final(self)@ == step_key(old(self)@, k).0,
            match out {
                Some(q) => step_key(old(self)@, k).1 == Some(q@),
                None => step_key(old(self)@, k).1 is None,
            },
    {
        match k {
            Key::Char(b) => {
                if self.focus == Field::Username {
                    self.username.push(b);
                } else if self.state == ConvState::PromptVisible || self.state
                    == ConvState::PromptSecret {
                    self.password.push(b);
                }
                None
            }
            Key::Backspace => {
                if self.focus == Field::Username {
                    if self.username.len() > 0 {
                        self.username.pop();
                        assert(self@.username =~= old(self)@.username.drop_last());
                    }
                } else if (self.state == ConvState::PromptVisible || self.state
                    == ConvState::PromptSecret) && self.password.len() > 0 {
                    self.password.pop();
                    assert(self@.password =~= old(self)@.password.drop_last());
                }
                None
            }
            Key::FocusSwitch => {
                self.focus = if self.focus == Field::Username {
                    Field::Password
                } else {
                    Field::Username
                };
                None
            }
            Key::Submit => {
                if self.focus == Field::Username {
                    if self.username.len() == 0 {
                        None
                    } else if self.state == ConvState::Unauthenticated {
                        self.state = ConvState::AwaitingCreateAck;
                        self.focus = Field::Password;
                        Some(Request::CreateSession { username: dup_bytes(&self.username) })
                    } else {
                        None
                    }
                } else {
                    if self.username.len() == 0 {
                        self.focus = Field::Username;
                        None
                    } else if self.state == ConvState::PromptVisible || self.state
                        == ConvState::PromptSecret {
                        self.state = ConvState::AwaitingPromptAck;
                        Some(Request::PostAuthMessageResponse {
                            response: Some(dup_bytes(&self.password)),
                        })
                    } else {
                        None
                    }
                }
            }
        }
    }

    /// Feed one daemon response.  `Err(Violation)` reports a response
    /// that no outstanding request explains; the state is unchanged
    /// then, and the caller must treat the condition as fatal.
    pub fn handle_response(&mut self, r: Response) -> (out: Result<Step, FatalError>)
        ensures
            match step_response(old(self)@, r@) {
                Some((c2, st)) => final(self)@ == c2 && match out {
                    Ok(o) => o@ == st,
                    Err(_) => false,
                },
                None => final(self)@ == old(self)@ && out == Err::<Step, FatalError>(
                    FatalError::Violation,
                ),
            },
    {
        if !(self.state == ConvState::AwaitingCreateAck || self.state
            == ConvState::AwaitingPromptAck || self.state == ConvState::LaunchRequested) {
            return Err(FatalError::Violation);
        }
        if self.state == ConvState::LaunchRequested {
            return match r {
                Response::Success => Ok(Step::Launched),
                _ => Err(FatalError::Violation),
            };
        }
        match r {
            Response::Success => {
                self.state = ConvState::Authenticated;
                Ok(Step::Idle)
            }
            Response::AuthMessage { kind, text } => match kind {
                AuthMessageKind::Visible => {
                    self.state = ConvState::PromptVisible;
                    self.prompt_kind = Some(AuthMessageKind::Visible);
                    self.prompt = text;
                    self.focus = Field::Password;
                    Ok(Step::Idle)
                }
                AuthMessageKind::Secret => {
                    self.state = ConvState::PromptSecret;
                    self.prompt_kind = Some(AuthMessageKind::Secret);
                    self.prompt = text;
                    self.focus = Field::Password;
                    Ok(Step::Idle)
                }
                AuthMessageKind::Info | AuthMessageKind::Error => {
                    self.state = ConvState::AwaitingPromptAck;
                    self.prompt_kind = Some(kind);
                    self.prompt = text;
                    Ok(Step::Send(Request::PostAuthMessageResponse { response: None }))
                }
            },
            Response::Error { kind, description } => match kind {
                ErrorKind::Generic => {
                    self.state = ConvState::FailedGeneric;
                    self.title = description;
                    Ok(Step::Idle)
                }
                ErrorKind::Auth => {
                    self.password = Vec::new();
                    self.prompt_kind = None;
                    self.prompt = Vec::new();
                    self.title = title_failed_vec();
                    match self.default_user {
                        Some(ref u) => {
                            let name = dup_bytes(u);
                            let wire = dup_bytes(u);
                            self.username = name;
                            self.state = ConvState::AwaitingCreateAck;
                            self.focus = Field::Password;
                            Ok(Step::Send(Request::CreateSession { username: wire }))
                        }
                        None => {
                            self.username = Vec::new();
                            self.state = ConvState::Unauthenticated;
                            self.focus = Field::Username;
                            Ok(Step::Idle)
                        }
                    }
                }
            },
        }
    }

    /// Commit to launching the chosen session: build and return the
    /// `start_session` request, whose command array is the fixed wrapper
    /// followed by `exec`.
    pub fn start_launch(&mut self, exec: &[u8]) -> (req: Request)
        requires
            old(self)@.state == ConvState::Authenticated,
        ensures
            final(self)@ == (ConversationView { state: ConvState::LaunchRequested, ..old(
                self)@ }),
            req@ == (RequestView::StartSession { cmd: launch_cmd(exec@) }),
    {
        self.state = ConvState::LaunchRequested;
        let mut cmd: Vec<Vec<u8>> = Vec::new();
        cmd.push(wrapper_path_vec());
        cmd.push(slice_to_vec(exec));
        let req = Request::StartSession { cmd };
        proof {
            assert(req@ matches RequestView::StartSession { cmd: c } && c =~~= launch_cmd(
                exec@));
        }
        req
    }

    pub fn state(&self) -> (st: ConvState)
        ensures
            st == self@.state,
    {
        self.state
    }

    pub fn username(&self) -> (v: &Vec<u8>)
        ensures
            v@ == self@.username,
    {
        &self.username
    }

    pub fn password(&self) -> (v: &Vec<u8>)
        ensures
            v@ == self@.password,
    {
        &self.password
    }

    pub fn focus(&self) -> (f: Field)
        ensures
            f == self@.focus,
    {
        self.focus
    }

    pub fn prompt_kind(&self) -> (k: Option<AuthMessageKind>)
        ensures
            k == self@.prompt_kind,
    {
        self.prompt_kind
    }

    pub fn prompt(&self) -> (v: &Vec<u8>)
        ensures
            v@ == self@.prompt,
    {
        &self.prompt
    }

    pub fn title(&self) -> (v: &Vec<u8>)
        ensures
            v@ == self@.title,
    {
        &self.title
    }
}

/// A display-only authentication message (`Info` or `Error`) arriving
/// while a request is outstanding is acknowledged at once: the step hands
/// back an empty-reply `post_auth_message_response` to send, and the
/// conversation waits for its acknowledgment — it never blocks on input.
pub proof fn lemma_auto_ack_display_only(c: ConversationView, kind: AuthMessageKind, text: Seq<
    u8,
>)
    requires
        c.state == ConvState::AwaitingCreateAck || c.state == ConvState::AwaitingPromptAck,
        kind == AuthMessageKind::Info || kind == AuthMessageKind::Error,
    ensures
        step_response(c, ResponseView::AuthMessage { kind, text }) matches Some((c2, st))
            && c2.state == ConvState::AwaitingPromptAck && st == StepView::Send(
            RequestView::PostAuthMessageResponse { response: None },
        ),
{
}

/// An `auth_error` response resets the whole conversation, whichever
/// awaiting state it arrived in: entered credentials are discarded, and
/// the machine stands at `Unauthenticated` — or at `AwaitingCreateAck`
/// with a fresh `create_session` out, when a default identity is
/// configured.
pub proof fn lemma_auth_error_resets(c: ConversationView, d: Seq<u8>)
    requires
        c.state == ConvState::AwaitingCreateAck || c.state == ConvState::AwaitingPromptAck,
    ensures
        step_response(c, ResponseView::Error { kind: ErrorKind::Auth, description: d })
            matches Some((c2, st)) && c2.password == Seq::<u8>::empty() && match c.default_user {
            Some(u) => c2.state == ConvState::AwaitingCreateAck && c2.username == u && st
                == StepView::Send(RequestView::CreateSession { username: u }),
            None => c2.state == ConvState::Unauthenticated && c2.username == Seq::<u8>::empty()
                && st == StepView::Idle,
        },
{
}

/// With an empty identity no keystroke sends anything: in particular,
/// submitting the identity field produces no `create_session`, and
/// submitting the reply field only moves focus back.
pub proof fn lemma_empty_username_sends_nothing(c: ConversationView, k: Key)
    requires
        c.username.len() == 0,
    ensures
        step_key(c, k).1 is None,
{
}

/// A response in a state with no request outstanding — a spurious
/// message — is a protocol violation, never silently consumed.
pub proof fn lemma_spurious_response_is_violation(c: ConversationView, r: ResponseView)
    requires
        !outstanding(c.state),
    ensures
        step_response(c, r) is None,
{
}

/// No response is silently dropped: whenever a request is outstanding,
/// every response has a defined transition — except after the launch was
/// requested, where anything but `success` is the protocol violation the
/// design demands.
pub proof fn lemma_every_response_handled(c: ConversationView, r: ResponseView)
    ensures
        step_response(c, r) is None <==> (!outstanding(c.state) || (c.state
            == ConvState::LaunchRequested && !(r is Success))),
{
}

/// One-in-flight discipline on the keystroke side: a keystroke sends
/// only when no request is outstanding, and the state it leaves behind
/// has that request outstanding.
pub proof fn lemma_key_one_in_flight(c: ConversationView, k: Key)
    ensures
        step_key(c, k).1 is Some ==> !outstanding(c.state) && outstanding(step_key(c, k).0.state),
{
}

/// One-in-flight discipline on the response side: handling a response
/// consumes the outstanding request, and when the step hands back a new
/// request to send, the resulting state has it outstanding again.
pub proof fn lemma_response_one_in_flight(c: ConversationView, r: ResponseView)
    ensures
        step_response(c, r) matches Some((c2, st)) ==> (st matches StepView::Send(_)
            ==> outstanding(c2.state)),
{
}

} // verus!
