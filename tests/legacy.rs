use webmud_gateway::frame::{close_frame, decode_frame, encode_frame, take_until, FrameError, FRAME_CAPACITY};
use webmud_gateway::handshake::{find_header, handshake_reply, handshake_response, key_number, read_request, HandshakeError, HANDSHAKE_CAPACITY};

fn request(key1: &str, key2: &str, key3: &[u8]) -> Vec<u8> {
    let mut r = format!(
        "GET / HTTP/1.1\r\nHost: example.com\r\nConnection: Upgrade\r\nSec-WebSocket-Key2: {}\r\nSec-WebSocket-Protocol: sample\r\nUpgrade: WebSocket\r\nSec-WebSocket-Key1: {}\r\nOrigin: http://example.com\r\n\r\n",
        key2, key1
    )
    .into_bytes();
    r.extend_from_slice(key3);
    r
}

#[test]
fn reference_handshake_digest() {
    let req = request("4 @1  46546xW%0l 1 5", "12998 5 Y3 1  .P00", b"^n:ds[4U");
    let reply = handshake_response(&req).unwrap().unwrap();
    let mut expected = b"HTTP/1.1 101 WebSocket Protocol Handshake\r\nUpgrade: WebSocket\r\nConnection: Upgrade\r\nSec-WebSocket-Origin: http://example.com\r\nSec-WebSocket-Location: ws://example.com/\r\n\r\n".to_vec();
    expected.extend_from_slice(b"8jKS'y:G*Co,Wxa-");
    assert_eq!(reply, expected);
}

#[test]
fn reference_key_numbers() {
    assert_eq!(key_number(b"4 @1  46546xW%0l 1 5"), Some(829309203));
    assert_eq!(key_number(b"12998 5 Y3 1  .P00"), Some(259970620));
    let c = read_request(&request("4 @1  46546xW%0l 1 5", "12998 5 Y3 1  .P00", b"^n:ds[4U")).unwrap().unwrap();
    assert_eq!(c.challenge, vec![0x31, 0x6E, 0x41, 0x13, 0x0F, 0x7E, 0xD6, 0x3C, b'^', b'n', b':', b'd', b's', b'[', b'4', b'U']);
    assert_eq!(c.host, b"example.com".to_vec());
    assert_eq!(c.origin, b"http://example.com".to_vec());
}

#[test]
fn key_without_spaces_is_refused() {
    let req = request("4146546015", "12998 5 Y3 1  .P00", b"^n:ds[4U");
    assert_eq!(handshake_response(&req), Err(HandshakeError::BadKey));
    assert_eq!(key_number(b"4146546015"), None);
}

#[test]
fn key_not_divisible_is_refused() {
    let req = request("4 @1  46546xW%0l 1 5", "12998 5 Y3 1  .P01", b"^n:ds[4U");
    assert_eq!(handshake_response(&req), Err(HandshakeError::BadKey));
    assert_eq!(key_number(b"1  3"), None);
    assert_eq!(key_number(b"1 2"), Some(12));
    assert_eq!(key_number(b"no digits "), None);
}

#[test]
fn missing_header_is_refused() {
    let req = b"GET / HTTP/1.1\r\nHost: a\r\nSec-WebSocket-Key1: 1 1\r\nSec-WebSocket-Key2: 1 1\r\n\r\n12345678";
    assert_eq!(handshake_response(req), Err(HandshakeError::MissingHeader));
}

#[test]
fn incomplete_request_waits() {
    let req = request("4 @1  46546xW%0l 1 5", "12998 5 Y3 1  .P00", b"^n:ds");
    assert_eq!(handshake_response(&req), Ok(None));
    assert_eq!(handshake_response(b"GET / HTTP/1.1\r\nHost: a"), Ok(None));
    assert_eq!(handshake_response(b""), Ok(None));
}

#[test]
fn handshake_buffer_is_bounded() {
    assert_eq!(HANDSHAKE_CAPACITY, 512);
    assert_eq!(handshake_response(&vec![b'a'; 512]), Err(HandshakeError::ExhaustedBuffer));
    assert_eq!(handshake_response(&vec![b'a'; 600]), Err(HandshakeError::ExhaustedBuffer));
    assert_eq!(handshake_response(&vec![b'a'; 511]), Ok(None));
}

#[test]
fn headers_match_in_any_case() {
    assert_eq!(find_header(b"X\r\nhOsT:   a.b  \r\n", b"Host"), Some(b"a.b".to_vec()));
    assert_eq!(find_header(b"XHost: a\r\n", b"Host"), None);
    assert_eq!(find_header(b"Host: one\nHost: two", b"Host"), Some(b"one".to_vec()));
}

#[test]
fn reply_layout() {
    let r = handshake_reply(b"o", b"h", &[1, 2]);
    let mut expected = b"HTTP/1.1 101 WebSocket Protocol Handshake\r\nUpgrade: WebSocket\r\nConnection: Upgrade\r\nSec-WebSocket-Origin: o\r\nSec-WebSocket-Location: ws://h/\r\n\r\n".to_vec();
    expected.extend_from_slice(&[1, 2]);
    assert_eq!(r, expected);
}

#[test]
fn frame_decoding() {
    assert_eq!(decode_frame(&[0x00, b'h', b'i', 0xFF]), Ok("hi".to_string()));
    assert_eq!(decode_frame(&[0xFF, 0x00]), Err(FrameError::ConnectionClosed));
    assert_eq!(decode_frame(&[0x41, b'h', 0xFF]), Err(FrameError::MalformedFrame));
    assert_eq!(decode_frame(&[]), Err(FrameError::ConnectionClosed));
    assert_eq!(decode_frame(&[0x00, 0xFF]), Ok(String::new()));
    assert_eq!(decode_frame(&[0x00, 0xC3, 0xFF]), Ok("\u{FFFD}".to_string()));
}

#[test]
fn frame_encoding() {
    assert_eq!(encode_frame("hi"), vec![0x00, b'h', b'i', 0xFF]);
    assert_eq!(encode_frame(""), vec![0x00, 0xFF]);
    assert_eq!(close_frame(), vec![0xFF, 0x00]);
}

#[test]
fn framed_read_is_bounded() {
    assert_eq!(FRAME_CAPACITY, 2048);
    let mut buf = Vec::new();
    assert_eq!(take_until(&mut buf, &vec![b'a'; 2049], 0xFF, FRAME_CAPACITY), Err(FrameError::LimitReached));
    assert!(buf.is_empty());
    let mut buf = vec![b'a'; 2000];
    assert_eq!(take_until(&mut buf, &vec![b'b'; 49], 0xFF, FRAME_CAPACITY), Err(FrameError::LimitReached));
    assert_eq!(take_until(&mut buf, &vec![b'b'; 48], 0xFF, FRAME_CAPACITY), Ok((false, 48)));
    assert_eq!(buf.len(), 2048);
}

#[test]
fn framed_read_stops_at_delimiter() {
    let mut buf = Vec::new();
    assert_eq!(take_until(&mut buf, &[0x00, b'h', 0xFF, 0x00, b'x'], 0xFF, FRAME_CAPACITY), Ok((true, 3)));
    assert_eq!(buf, vec![0x00, b'h', 0xFF]);
    let mut buf = vec![0x00];
    assert_eq!(take_until(&mut buf, &[b'h'], 0xFF, FRAME_CAPACITY), Ok((false, 1)));
    assert_eq!(take_until(&mut buf, &[], 0xFF, FRAME_CAPACITY), Ok((true, 0)));
}

#[test]
fn error_texts() {
    assert_eq!(FrameError::LimitReached.message(), "Limit reached");
    assert_eq!(FrameError::MalformedFrame.message(), "Malformed frame");
    assert_eq!(FrameError::ConnectionClosed.message(), "Connection closed");
    assert_eq!(HandshakeError::ExhaustedBuffer.message(), "Exhausted buffer");
    assert_eq!(HandshakeError::MissingHeader.message(), "Header not found");
    assert_eq!(HandshakeError::BadKey.message(), "Incorrect client data");
}
