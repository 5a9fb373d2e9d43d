//! Tests of the wire codec: exact bytes, framing, and round trips.

use greetd_login::codec::{decode_len, decode_request_body, decode_response_body,
    encode_request, encode_request_body};
use greetd_login::msg::{AuthMessageKind, ErrorKind, FatalError, Request, Response};

fn frame(body: &[u8]) -> Vec<u8> {
    let n = body.len() as u32;
    let mut out = n.to_le_bytes().to_vec();
    out.extend_from_slice(body);
    out
}

#[test]
fn create_session_exact_bytes() {
    let req = Request::CreateSession {
        username: b"alice".to_vec(),
    };
    let body = encode_request_body(&req);
    assert_eq!(body, b"{\"type\":\"create_session\",\"username\":\"alice\"}".to_vec());
    let framed = encode_request(&req).unwrap();
    assert_eq!(framed, frame(&body));
}

#[test]
fn prefix_counts_body_bytes_only() {
    let req = Request::CancelSession;
    let body = encode_request_body(&req);
    assert_eq!(body, b"{\"type\":\"cancel_session\"}".to_vec());
    let framed = encode_request(&req).unwrap();
    assert_eq!(framed.len(), body.len() + 4);
    let n = decode_len(&framed[0..4]);
    assert_eq!(n as usize, body.len());
}

#[test]
fn post_auth_message_response_with_reply() {
    let req = Request::PostAuthMessageResponse {
        response: Some(b"hunter2".to_vec()),
    };
    let body = encode_request_body(&req);
    assert_eq!(
        body,
        b"{\"type\":\"post_auth_message_response\",\"response\":\"hunter2\"}".to_vec()
    );
}

#[test]
fn post_auth_message_response_without_reply_has_no_response_field() {
    let req = Request::PostAuthMessageResponse { response: None };
    let body = encode_request_body(&req);
    assert_eq!(body, b"{\"type\":\"post_auth_message_response\"}".to_vec());
}

#[test]
fn start_session_exact_bytes() {
    let req = Request::StartSession {
        cmd: vec![b"/etc/ly/wsetup.sh".to_vec(), b"/usr/bin/sway".to_vec()],
    };
    let body = encode_request_body(&req);
    assert_eq!(
        body,
        b"{\"type\":\"start_session\",\"cmd\":[\"/etc/ly/wsetup.sh\",\"/usr/bin/sway\"]}"
            .to_vec()
    );
}

#[test]
fn request_round_trip_all_variants() {
    let cases = vec![
        Request::CreateSession {
            username: b"alice".to_vec(),
        },
        Request::CreateSession {
            username: b"".to_vec(),
        },
        Request::PostAuthMessageResponse { response: None },
        Request::PostAuthMessageResponse {
            response: Some(b"".to_vec()),
        },
        Request::PostAuthMessageResponse {
            response: Some(b"s3cret!".to_vec()),
        },
        Request::StartSession { cmd: vec![] },
        Request::StartSession {
            cmd: vec![b"/bin/sh".to_vec()],
        },
        Request::StartSession {
            cmd: vec![b"/etc/ly/wsetup.sh".to_vec(), b"/usr/bin/sway".to_vec()],
        },
        Request::CancelSession,
    ];
    for req in cases {
        let body = encode_request_body(&req);
        let back = decode_request_body(&body).unwrap();
        assert_eq!(back, req);
    }
}

#[test]
fn request_round_trip_with_escapes() {
    let wild: Vec<u8> = b"a\"b\\c\nd\te\x01f\x7f\xc3\xa9".to_vec();
    let req = Request::CreateSession {
        username: wild.clone(),
    };
    let body = encode_request_body(&req);
    assert_eq!(
        body,
        b"{\"type\":\"create_session\",\"username\":\"a\\\"b\\\\c\\nd\\te\\u0001f\x7f\xc3\xa9\"}"
            .to_vec()
    );
    match decode_request_body(&body).unwrap() {
        Request::CreateSession { username } => assert_eq!(username, wild),
        other => panic!("decoded wrong variant: {:?}", other),
    }
}

#[test]
fn decode_success_response() {
    let resp = decode_response_body(b"{\"type\":\"success\"}").unwrap();
    assert_eq!(resp, Response::Success);
}

#[test]
fn decode_auth_message_responses() {
    let cases: Vec<(&[u8], AuthMessageKind)> = vec![
        (b"visible", AuthMessageKind::Visible),
        (b"secret", AuthMessageKind::Secret),
        (b"info", AuthMessageKind::Info),
        (b"error", AuthMessageKind::Error),
    ];
    for (tok, kind) in cases {
        let mut body = b"{\"type\":\"auth_message\",\"auth_message_type\":\"".to_vec();
        body.extend_from_slice(tok);
        body.extend_from_slice(b"\",\"auth_message\":\"Password:\"}");
        let resp = decode_response_body(&body).unwrap();
        assert_eq!(
            resp,
            Response::AuthMessage {
                kind,
                text: b"Password:".to_vec()
            }
        );
    }
}

#[test]
fn decode_error_responses() {
    let generic =
        decode_response_body(b"{\"type\":\"error\",\"error_type\":\"error\",\"description\":\"boom\"}")
            .unwrap();
    assert_eq!(
        generic,
        Response::Error {
            kind: ErrorKind::Generic,
            description: b"boom".to_vec()
        }
    );
    let auth = decode_response_body(
        b"{\"type\":\"error\",\"error_type\":\"auth_error\",\"description\":\"denied\"}",
    )
    .unwrap();
    assert_eq!(
        auth,
        Response::Error {
            kind: ErrorKind::Auth,
            description: b"denied".to_vec()
        }
    );
}

#[test]
fn decode_response_with_escaped_text() {
    let resp = decode_response_body(
        b"{\"type\":\"auth_message\",\"auth_message_type\":\"info\",\"auth_message\":\"line\\nbreak \\u0007 \\\"q\\\"\"}",
    )
    .unwrap();
    assert_eq!(
        resp,
        Response::AuthMessage {
            kind: AuthMessageKind::Info,
            text: b"line\nbreak \x07 \"q\"".to_vec()
        }
    );
}

#[test]
fn malformed_bodies_are_protocol_errors() {
    let bad: Vec<&[u8]> = vec![
        b"",
        b"{}",
        b"{\"type\":\"success\"",
        b"{\"type\":\"succezz\"}",
        b"{\"type\":\"success\"} ",
        b"{\"type\":\"auth_message\",\"auth_message_type\":\"shout\",\"auth_message\":\"x\"}",
        b"{\"type\":\"error\",\"error_type\":\"warn\",\"description\":\"x\"}",
        b"{\"type\":\"error\",\"description\":\"x\",\"error_type\":\"error\"}",
        b"{\"type\":\"auth_message\",\"auth_message\":\"x\"}",
    ];
    for body in bad {
        assert_eq!(decode_response_body(body), Err(FatalError::Protocol));
    }
    let bad_req: Vec<&[u8]> = vec![
        b"",
        b"{\"type\":\"create_session\"}",
        b"{\"type\":\"create_session\",\"username\":\"a\"} ",
        b"{\"type\":\"start_session\",\"cmd\":[}",
        b"{\"type\":\"start_session\",\"cmd\":[\"a\",]}",
        b"{\"type\":\"create_session\",\"username\":\"a\\q\"}",
        b"{\"type\":\"create_session\",\"username\":\"a\x01b\"}",
    ];
    for body in bad_req {
        assert_eq!(decode_request_body(body), Err(FatalError::Protocol));
    }
}

#[test]
fn prefix_is_little_endian() {
    let req = Request::CreateSession {
        username: b"alice".to_vec(),
    };
    let framed = encode_request(&req).unwrap();
    let body_len = framed.len() - 4;
    assert_eq!(&framed[0..4], &(body_len as u32).to_le_bytes());
    assert_eq!(decode_len(&framed[0..4]), body_len as u64);
}
