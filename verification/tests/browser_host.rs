use grimoire::browser_host::{
    add_input, add_response, encode_message, malformed_request, read_message, FrameError, Response,
    MAX_MESSAGE_LEN,
};

fn encode(json: &str) -> Vec<u8> {
    let mut buffer = (json.len() as u32).to_le_bytes().to_vec();
    buffer.extend_from_slice(json.as_bytes());
    buffer
}

#[test]
fn reads_and_decodes_a_length_prefixed_message() {
    let framed = encode(r#"{"action":"ping"}"#);
    let (message, next) = read_message(&framed, 0).unwrap().unwrap();
    assert_eq!(message, br#"{"action":"ping"}"#);
    assert!(read_message(&framed, next).unwrap().is_none());
}

#[test]
fn rejects_oversized_messages() {
    let mut framed = (MAX_MESSAGE_LEN + 1).to_le_bytes().to_vec();
    framed.push(0);
    assert!(read_message(&framed, 0).is_err());
}

#[test]
fn empty_add_input_is_rejected() {
    let response = add_input("   ");
    assert!(matches!(response, Err(Response::Error { .. })));
}

#[test]
fn oversized_length_names_the_length() {
    let framed = (MAX_MESSAGE_LEN + 1).to_le_bytes().to_vec();
    assert_eq!(read_message(&framed, 0), Err(FrameError::TooLong(MAX_MESSAGE_LEN + 1)));
    assert_eq!(
        FrameError::TooLong(MAX_MESSAGE_LEN + 1).message(),
        "Native message length 1048577 exceeds the 1048576-byte limit"
    );
}

#[test]
fn a_cut_off_body_is_an_error_and_a_short_header_is_the_end() {
    let mut framed = encode("abcdef");
    framed.truncate(7);
    assert_eq!(read_message(&framed, 0), Err(FrameError::Truncated));
    assert_eq!(read_message(&[1, 0, 0], 0), Ok(None));
}

#[test]
fn framing_round_trips() {
    let payload = br#"{"ok":true,"action":"ping"}"#;
    let framed = encode_message(payload).unwrap();
    assert_eq!(&framed[..4], &(payload.len() as u32).to_le_bytes());
    let (body, next) = read_message(&framed, 0).unwrap().unwrap();
    assert_eq!(body, payload);
    assert_eq!(next, framed.len());
}

#[test]
fn add_input_is_trimmed_and_answered() {
    assert_eq!(add_input("  10.1234/x ").unwrap(), "10.1234/x");
    match add_response("10.1234/x".to_string(), Ok(vec![])) {
        Response::Add { status, .. } => assert_eq!(status, "skipped"),
        other => panic!("unexpected {other:?}"),
    }
    match add_response("x".to_string(), Ok(vec!["k".to_string()])) {
        Response::Add { status, keys, .. } => {
            assert_eq!(status, "added");
            assert_eq!(keys, ["k"]);
        }
        other => panic!("unexpected {other:?}"),
    }
    assert_eq!(
        add_response("x".to_string(), Err("boom".to_string())),
        Response::Error { error: "boom".to_string() }
    );
}

#[test]
fn malformed_requests_name_their_action() {
    match malformed_request(Some("teleport".to_string()), "unknown variant") {
        Response::Error { error } => {
            assert_eq!(error, "Unsupported or malformed request 'teleport': unknown variant")
        }
        other => panic!("unexpected {other:?}"),
    }
    match malformed_request(None, "EOF") {
        Response::Error { error } => assert_eq!(error, "Malformed request: EOF"),
        other => panic!("unexpected {other:?}"),
    }
}

#[test]
fn malformed_request_becomes_an_error_response() {
    let message = br#"{"action":"teleport"}"#;
    let value: serde_json::Value = serde_json::from_slice(message).unwrap();
    let action = value.get("action").and_then(|a| a.as_str()).map(str::to_string);
    let response = malformed_request(action, "unknown variant `teleport`, expected `ping` or `add`");
    match response {
        Response::Error { error } => assert!(error.contains("teleport"), "{error}"),
        other => panic!("expected error response, got {other:?}"),
    }
}
