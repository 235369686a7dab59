use css_modules_kit::frame::{FrameBuffer, encode_frame};

fn frame(body: &[u8]) -> Vec<u8> {
    encode_frame(&body.to_vec())
}

#[test]
fn encode_produces_header_and_body() {
    let body = b"{\"a\":1}".to_vec();
    let framed = encode_frame(&body);
    assert_eq!(framed, b"Content-Length: 7\r\n\r\n{\"a\":1}".to_vec());
}

#[test]
fn round_trip_all_at_once() {
    let body = b"{\"jsonrpc\":\"2.0\",\"id\":1,\"method\":\"initialize\"}";
    let mut fb = FrameBuffer::new();
    let msgs = fb.feed(&frame(body));
    assert_eq!(msgs.len(), 1);
    assert_eq!(msgs[0], body.to_vec());
}

#[test]
fn round_trip_one_byte_at_a_time() {
    let body = b"{\"jsonrpc\":\"2.0\",\"id\":1,\"method\":\"initialize\"}";
    let wire = frame(body);
    let mut fb = FrameBuffer::new();
    let mut all: Vec<Vec<u8>> = Vec::new();
    for b in wire {
        let got = fb.feed(&vec![b]);
        all.extend(got);
    }
    assert_eq!(all.len(), 1);
    assert_eq!(all[0], body.to_vec());
}

#[test]
fn two_messages_in_one_chunk() {
    let a = b"{\"id\":1}";
    let b = b"{\"id\":2}";
    let mut wire = frame(a);
    wire.extend(frame(b));
    let mut fb = FrameBuffer::new();
    let msgs = fb.feed(&wire);
    assert_eq!(msgs.len(), 2);
    assert_eq!(msgs[0], a.to_vec());
    assert_eq!(msgs[1], b.to_vec());
}

#[test]
fn header_split_across_chunks() {
    let body = b"{\"x\":true}";
    let wire = frame(body);
    let (first, second) = wire.split_at(9);
    let mut fb = FrameBuffer::new();
    assert_eq!(fb.feed(&first.to_vec()).len(), 0);
    let msgs = fb.feed(&second.to_vec());
    assert_eq!(msgs.len(), 1);
    assert_eq!(msgs[0], body.to_vec());
}

#[test]
fn short_body_waits_for_more() {
    let mut fb = FrameBuffer::new();
    let msgs = fb.feed(&b"Content-Length: 5\r\n\r\n{}".to_vec());
    assert_eq!(msgs.len(), 0);
    let msgs = fb.feed(&b"abc".to_vec());
    assert_eq!(msgs.len(), 1);
    assert_eq!(msgs[0], b"{}abc".to_vec());
}

#[test]
fn header_key_is_case_insensitive() {
    let mut fb = FrameBuffer::new();
    let msgs = fb.feed(&b"content-LENGTH: 2\r\n\r\n{}".to_vec());
    assert_eq!(msgs.len(), 1);
    assert_eq!(msgs[0], b"{}".to_vec());
}

#[test]
fn malformed_header_is_retained_not_dropped() {
    let mut fb = FrameBuffer::new();
    let msgs = fb.feed(&b"X-Other: 3\r\n\r\n{}x".to_vec());
    assert_eq!(msgs.len(), 0);
    // nothing was discarded, and nothing behind the bad header is processed
    let msgs = fb.feed(&b"more".to_vec());
    assert_eq!(msgs.len(), 0);
}

#[test]
fn zero_length_message_yields_no_body() {
    let mut fb = FrameBuffer::new();
    let mut wire = b"Content-Length: 0\r\n\r\n".to_vec();
    wire.extend(frame(b"{\"y\":0}"));
    let msgs = fb.feed(&wire);
    assert_eq!(msgs.len(), 1);
    assert_eq!(msgs[0], b"{\"y\":0}".to_vec());
}
