use habits_display::error::Error;
use habits_display::handshake::{
    check_handshake_response, handshake_request, HandshakeReader, ReadProgress, RESPONSE_CAPACITY,
};

#[test]
fn request_has_all_headers() {
    let key: [u8; 24] = *b"dGhlIHNhbXBsZSBub25jZQ==";
    let request = handshake_request("habits.lcl:3000", &key, "SECRET-REDACTED");
    let expected = "GET /websocket/notifications HTTP/1.1\r\n\
Host: habits.lcl:3000\r\n\
Upgrade: websocket\r\n\
Connection: Upgrade\r\n\
Sec-WebSocket-Key: dGhlIHNhbXBsZSBub25jZQ==\r\n\
Sec-WebSocket-Version: 13\r\n\
Authorization: Bearer SECRET-REDACTED\r\n\r\n";
    assert_eq!(request, expected.as_bytes());
}

#[test]
fn header_end_split_across_reads() {
    let mut reader = HandshakeReader::new();
    assert_eq!(reader.space(), RESPONSE_CAPACITY);
    assert_eq!(reader.receive(b"HTTP/1.1 101 Switching Protocols\r\n"), Ok(ReadProgress::NeedMore));
    assert_eq!(reader.receive(b"upgrade: websocket\r"), Ok(ReadProgress::NeedMore));
    assert_eq!(reader.receive(b"\n\r"), Ok(ReadProgress::NeedMore));
    assert_eq!(reader.receive(b"\n"), Ok(ReadProgress::Complete));
    assert_eq!(
        reader.response(),
        b"HTTP/1.1 101 Switching Protocols\r\nupgrade: websocket\r\n\r\n"
    );
    assert_eq!(check_handshake_response(reader.response()), Ok(()));
}

#[test]
fn header_end_in_one_read() {
    let mut reader = HandshakeReader::new();
    assert_eq!(reader.receive(b"HTTP/1.1 101 OK\r\n\r\n{\"event\":1}"), Ok(ReadProgress::Complete));
}

#[test]
fn end_of_stream_fails_handshake() {
    let mut reader = HandshakeReader::new();
    assert_eq!(reader.receive(b"HTTP/1.1 101"), Ok(ReadProgress::NeedMore));
    assert_eq!(reader.receive(b""), Err(Error::Handshake));
}

#[test]
fn full_buffer_fails_handshake() {
    let mut reader = HandshakeReader::new();
    let chunk = [b'a'; 100];
    for _ in 0..5 {
        assert_eq!(reader.receive(&chunk), Ok(ReadProgress::NeedMore));
    }
    assert_eq!(reader.space(), 12);
    assert_eq!(reader.receive(&chunk[..12]), Err(Error::Handshake));
}

#[test]
fn header_end_at_the_last_byte_still_completes() {
    let mut reader = HandshakeReader::new();
    let mut first = vec![b'a'; 508];
    first.extend_from_slice(b"\r\n\r");
    assert_eq!(reader.receive(&first), Ok(ReadProgress::NeedMore));
    assert_eq!(reader.receive(b"\n"), Ok(ReadProgress::Complete));
}

#[test]
fn response_must_switch_protocols() {
    assert_eq!(check_handshake_response(b"HTTP/1.1 101 Switching Protocols\r\n\r\n"), Ok(()));
    assert_eq!(check_handshake_response(b"HTTP/1.1 401 Unauthorized\r\n\r\n"), Err(Error::Handshake));
    assert_eq!(check_handshake_response(b"HTTP/1.1 1010\r\n\r\n"), Err(Error::Handshake));
    assert_eq!(check_handshake_response(b"HTTP/1.1 101 \xff\r\n\r\n"), Err(Error::Handshake));
}

#[test]
fn accepts_documented_server_answer() {
    let answer = "HTTP/1.1 101 Switching Protocols\r\n\
connection: upgrade\r\n\
upgrade: websocket\r\n\
sec-websocket-accept: s3pPLMBiTxaQ9kYGzzhZRbK+xOo=\r\n\
vary: origin, access-control-request-method, access-control-request-headers\r\n\
access-control-allow-credentials: true\r\n\
access-control-allow-origin: http://habits.lcl:3000\r\n\
date: Thu, 28 May 2026 22:51:31 GMT\r\n\r\n";
    let mut reader = HandshakeReader::new();
    let bytes = answer.as_bytes();
    assert_eq!(reader.receive(&bytes[..40]), Ok(ReadProgress::NeedMore));
    assert_eq!(reader.receive(&bytes[40..]), Ok(ReadProgress::Complete));
    assert_eq!(check_handshake_response(reader.response()), Ok(()));
}

#[test]
fn short_reads_ask_for_more() {
    let mut reader = HandshakeReader::new();
    assert_eq!(reader.receive(b"HTT"), Ok(ReadProgress::NeedMore));
    assert_eq!(reader.receive(b"P/1.1 101 Switching"), Ok(ReadProgress::NeedMore));
    assert_eq!(reader.receive(b""), Err(Error::Handshake));
}
