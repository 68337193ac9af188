use smppgc::globalchat::{ChatResponder, NewKeyResponse};
use smppgc::nanohttp::{respond_200, respond_404};

#[test]
fn not_found_text() {
    assert_eq!(
        respond_404(),
        "HTTP/1.1 404 Not found\r\nContent-Type: text/plain\r\nContent-Length: 9\r\n\r\nnot found"
    );
}

#[test]
fn ok_wraps_payload_with_length() {
    assert_eq!(
        respond_200("abc".to_string()),
        "HTTP/1.1 200 OK\r\nContent-Type: text/plain\r\nContent-Length: 3\r\n\r\nabc"
    );
    assert_eq!(
        respond_200(String::new()),
        "HTTP/1.1 200 OK\r\nContent-Type: text/plain\r\nContent-Length: 0\r\n\r\n"
    );
    let long = "x".repeat(120);
    let got = respond_200(long.clone());
    assert!(got.starts_with("HTTP/1.1 200 OK\r\nContent-Type: text/plain\r\nContent-Length: 120\r\n\r\n"));
    assert!(got.ends_with(&long));
}

#[test]
fn responder_texts() {
    assert!(matches!(ChatResponder::<String>::invalid_key(), ChatResponder::Unauthorized("Invalid key")));
    assert!(matches!(ChatResponder::<String>::too_long(), ChatResponder::BadRequest("Too long")));
    assert!(matches!(ChatResponder::<String>::invalid_char(), ChatResponder::BadRequest("Invalid chars")));
    assert!(matches!(ChatResponder::<String>::teapot(), ChatResponder::TeaPot(_)));
    assert!(matches!(NewKeyResponse::teapot(), NewKeyResponse::TeaPot(_)));
    assert!(matches!(NewKeyResponse::room_filled(), NewKeyResponse::Badrequest("Too many people in chat right now")));
}
