//! Tests of the conversation state machine, scenario by scenario.

use greetd_login::codec::decode_response_body;
use greetd_login::msg::{AuthMessageKind, ErrorKind, Request, Response, FatalError};
use greetd_login::session::{Conversation, ConvState, Field, Key, Step};

fn type_word(conv: &mut Conversation, word: &[u8]) {
    for &b in word {
        assert_eq!(conv.handle_key(Key::Char(b)), None);
    }
}

#[test]
fn fresh_start_submit_alice_sends_one_create_session() {
    let (mut conv, initial) = Conversation::new(None);
    assert_eq!(initial, None);
    assert_eq!(conv.state(), ConvState::Unauthenticated);
    assert_eq!(conv.focus(), Field::Username);
    type_word(&mut conv, b"alice");
    let sent = conv.handle_key(Key::Submit);
    assert_eq!(
        sent,
        Some(Request::CreateSession {
            username: b"alice".to_vec()
        })
    );
    assert_eq!(conv.state(), ConvState::AwaitingCreateAck);
    assert_eq!(conv.focus(), Field::Password);
}

#[test]
fn empty_username_submit_sends_nothing() {
    let (mut conv, _) = Conversation::new(None);
    assert_eq!(conv.handle_key(Key::Submit), None);
    assert_eq!(conv.state(), ConvState::Unauthenticated);
    // From the password field too: focus only reverts, nothing is sent.
    assert_eq!(conv.handle_key(Key::FocusSwitch), None);
    assert_eq!(conv.focus(), Field::Password);
    assert_eq!(conv.handle_key(Key::Submit), None);
    assert_eq!(conv.focus(), Field::Username);
    assert_eq!(conv.state(), ConvState::Unauthenticated);
}

#[test]
fn secret_prompt_enters_masked_state_without_sending() {
    let (mut conv, _) = Conversation::new(None);
    type_word(&mut conv, b"alice");
    conv.handle_key(Key::Submit);
    let reply = decode_response_body(
        b"{\"type\":\"auth_message\",\"auth_message_type\":\"secret\",\"auth_message\":\"Password:\"}",
    )
    .unwrap();
    let step = conv.handle_response(reply).unwrap();
    assert_eq!(step, Step::Idle);
    assert_eq!(conv.state(), ConvState::PromptSecret);
    assert_eq!(conv.prompt_kind(), Some(AuthMessageKind::Secret));
    assert_eq!(conv.prompt(), &b"Password:".to_vec());
    // Masked input lands in the password buffer.
    type_word(&mut conv, b"wrong");
    assert_eq!(conv.password(), &b"wrong".to_vec());
}

#[test]
fn wrong_password_auth_error_resets_conversation() {
    let (mut conv, _) = Conversation::new(None);
    type_word(&mut conv, b"alice");
    conv.handle_key(Key::Submit);
    let prompt = decode_response_body(
        b"{\"type\":\"auth_message\",\"auth_message_type\":\"secret\",\"auth_message\":\"Password:\"}",
    )
    .unwrap();
    conv.handle_response(prompt).unwrap();
    type_word(&mut conv, b"wrong");
    let sent = conv.handle_key(Key::Submit);
    assert_eq!(
        sent,
        Some(Request::PostAuthMessageResponse {
            response: Some(b"wrong".to_vec())
        })
    );
    assert_eq!(conv.state(), ConvState::AwaitingPromptAck);
    let denial = Response::Error {
        kind: ErrorKind::Auth,
        description: b"authentication failed".to_vec(),
    };
    let step = conv.handle_response(denial).unwrap();
    assert_eq!(step, Step::Idle);
    assert_eq!(conv.state(), ConvState::Unauthenticated);
    assert_eq!(conv.username(), &b"".to_vec());
    assert_eq!(conv.password(), &b"".to_vec());
    assert_eq!(conv.focus(), Field::Username);
    assert_eq!(conv.title(), &b"Login failed".to_vec());
}

#[test]
fn auth_error_with_default_identity_recreates_session() {
    let (mut conv, initial) = Conversation::new(Some(b"alice".to_vec()));
    assert_eq!(
        initial,
        Some(Request::CreateSession {
            username: b"alice".to_vec()
        })
    );
    assert_eq!(conv.state(), ConvState::AwaitingCreateAck);
    assert_eq!(conv.focus(), Field::Password);
    let denial = Response::Error {
        kind: ErrorKind::Auth,
        description: b"nope".to_vec(),
    };
    let step = conv.handle_response(denial).unwrap();
    assert_eq!(
        step,
        Step::Send(Request::CreateSession {
            username: b"alice".to_vec()
        })
    );
    assert_eq!(conv.state(), ConvState::AwaitingCreateAck);
    assert_eq!(conv.username(), &b"alice".to_vec());
    assert_eq!(conv.password(), &b"".to_vec());
}

#[test]
fn info_and_error_messages_auto_acknowledge() {
    for kind_tok in [&b"info"[..], &b"error"[..]] {
        let (mut conv, _) = Conversation::new(None);
        type_word(&mut conv, b"alice");
        conv.handle_key(Key::Submit);
        let mut body = b"{\"type\":\"auth_message\",\"auth_message_type\":\"".to_vec();
        body.extend_from_slice(kind_tok);
        body.extend_from_slice(b"\",\"auth_message\":\"notice\"}");
        let msg = decode_response_body(&body).unwrap();
        let step = conv.handle_response(msg).unwrap();
        assert_eq!(
            step,
            Step::Send(Request::PostAuthMessageResponse { response: None })
        );
        assert_eq!(conv.state(), ConvState::AwaitingPromptAck);
        assert_eq!(conv.prompt(), &b"notice".to_vec());
    }
}

#[test]
fn launch_uses_wrapper_then_session_exec() {
    let (mut conv, _) = Conversation::new(None);
    type_word(&mut conv, b"alice");
    conv.handle_key(Key::Submit);
    let step = conv.handle_response(Response::Success).unwrap();
    assert_eq!(step, Step::Idle);
    assert_eq!(conv.state(), ConvState::Authenticated);
    let req = conv.start_launch(b"/usr/bin/startplasma-wayland");
    assert_eq!(
        req,
        Request::StartSession {
            cmd: vec![
                b"/etc/ly/wsetup.sh".to_vec(),
                b"/usr/bin/startplasma-wayland".to_vec(),
            ]
        }
    );
    assert_eq!(conv.state(), ConvState::LaunchRequested);
    let step = conv.handle_response(Response::Success).unwrap();
    assert_eq!(step, Step::Launched);
}

#[test]
fn response_after_launch_other_than_success_is_violation() {
    let (mut conv, _) = Conversation::new(None);
    type_word(&mut conv, b"alice");
    conv.handle_key(Key::Submit);
    conv.handle_response(Response::Success).unwrap();
    conv.start_launch(b"/bin/sh");
    let bad = Response::AuthMessage {
        kind: AuthMessageKind::Info,
        text: b"?".to_vec(),
    };
    assert_eq!(conv.handle_response(bad), Err(FatalError::Violation));
    assert_eq!(conv.state(), ConvState::LaunchRequested);
}

#[test]
fn spurious_response_is_violation_not_ignored() {
    let (mut conv, _) = Conversation::new(None);
    assert_eq!(
        conv.handle_response(Response::Success),
        Err(FatalError::Violation)
    );
    assert_eq!(conv.state(), ConvState::Unauthenticated);
    // Same while a prompt is on display: the previous response was
    // already consumed, so nothing is outstanding.
    type_word(&mut conv, b"alice");
    conv.handle_key(Key::Submit);
    let prompt = Response::AuthMessage {
        kind: AuthMessageKind::Visible,
        text: b"Login:".to_vec(),
    };
    conv.handle_response(prompt).unwrap();
    assert_eq!(conv.state(), ConvState::PromptVisible);
    assert_eq!(
        conv.handle_response(Response::Success),
        Err(FatalError::Violation)
    );
}

#[test]
fn generic_error_is_terminal_and_shows_description() {
    let (mut conv, _) = Conversation::new(None);
    type_word(&mut conv, b"alice");
    conv.handle_key(Key::Submit);
    let failure = Response::Error {
        kind: ErrorKind::Generic,
        description: b"daemon on fire".to_vec(),
    };
    let step = conv.handle_response(failure).unwrap();
    assert_eq!(step, Step::Idle);
    assert_eq!(conv.state(), ConvState::FailedGeneric);
    assert_eq!(conv.title(), &b"daemon on fire".to_vec());
    // No further protocol traffic from keystrokes in the failed state.
    assert_eq!(conv.handle_key(Key::Submit), None);
}

#[test]
fn keystrokes_edit_buffers_and_focus() {
    let (mut conv, _) = Conversation::new(None);
    type_word(&mut conv, b"alicf");
    assert_eq!(conv.username(), &b"alicf".to_vec());
    assert_eq!(conv.handle_key(Key::Backspace), None);
    assert_eq!(conv.username(), &b"alic".to_vec());
    type_word(&mut conv, b"e");
    assert_eq!(conv.username(), &b"alice".to_vec());
    // Backspace on an empty password buffer changes nothing.
    assert_eq!(conv.handle_key(Key::FocusSwitch), None);
    assert_eq!(conv.handle_key(Key::Backspace), None);
    assert_eq!(conv.password(), &b"".to_vec());
    // Typing into the password field is swallowed while no prompt shows.
    assert_eq!(conv.handle_key(Key::Char(b'x')), None);
    assert_eq!(conv.password(), &b"".to_vec());
}

#[test]
fn multi_round_conversation_loops_until_success() {
    let (mut conv, _) = Conversation::new(None);
    type_word(&mut conv, b"alice");
    conv.handle_key(Key::Submit);
    for round in 0..3u8 {
        let prompt = Response::AuthMessage {
            kind: AuthMessageKind::Secret,
            text: vec![b'#', b'0' + round],
        };
        conv.handle_response(prompt).unwrap();
        assert_eq!(conv.state(), ConvState::PromptSecret);
        let sent = conv.handle_key(Key::Submit);
        assert!(matches!(
            sent,
            Some(Request::PostAuthMessageResponse { response: Some(_) })
        ));
        assert_eq!(conv.state(), ConvState::AwaitingPromptAck);
    }
    conv.handle_response(Response::Success).unwrap();
    assert_eq!(conv.state(), ConvState::Authenticated);
}
