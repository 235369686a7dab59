use css_modules_kit::dispatch::{StubAction, handle_body, handle_chunk};
use css_modules_kit::frame::{FrameBuffer, encode_frame};

fn frame(body: &[u8]) -> Vec<u8> {
    encode_frame(&body.to_vec())
}

fn reply_of(a: StubAction) -> Vec<u8> {
    match a {
        StubAction::Reply(r) => r,
        StubAction::Exit => panic!("expected a reply, got exit"),
        StubAction::Silent => panic!("expected a reply, got silence"),
    }
}

#[test]
fn initialize_gets_empty_capabilities() {
    let a = handle_body(&b"{\"jsonrpc\":\"2.0\",\"id\":1,\"method\":\"initialize\"}".to_vec());
    assert_eq!(
        reply_of(a),
        b"{\"jsonrpc\":\"2.0\",\"id\":1,\"result\":{\"capabilities\":{}}}".to_vec()
    );
}

#[test]
fn unknown_method_gets_method_not_found() {
    let a = handle_body(&b"{\"jsonrpc\":\"2.0\",\"id\":2,\"method\":\"frobnicate\"}".to_vec());
    assert_eq!(
        reply_of(a),
        b"{\"jsonrpc\":\"2.0\",\"id\":2,\"error\":{\"code\":-32601,\"message\":\"Method not found: frobnicate\"}}"
            .to_vec()
    );
}

#[test]
fn notification_gets_no_response() {
    let a = handle_body(&b"{\"jsonrpc\":\"2.0\",\"method\":\"somethingUnsolicited\"}".to_vec());
    assert!(matches!(a, StubAction::Silent));
}

#[test]
fn shutdown_gets_null_result() {
    let a = handle_body(&b"{\"jsonrpc\":\"2.0\",\"id\":3,\"method\":\"shutdown\"}".to_vec());
    assert_eq!(reply_of(a), b"{\"jsonrpc\":\"2.0\",\"id\":3,\"result\":null}".to_vec());
}

#[test]
fn exit_terminates_even_without_id() {
    let a = handle_body(&b"{\"jsonrpc\":\"2.0\",\"method\":\"exit\"}".to_vec());
    assert!(matches!(a, StubAction::Exit));
}

#[test]
fn malformed_json_is_silent() {
    let a = handle_body(&b"{\"jsonrpc\":\"2.0\",".to_vec());
    assert!(matches!(a, StubAction::Silent));
}

#[test]
fn string_id_is_echoed_as_json_string() {
    let a = handle_body(&b"{\"jsonrpc\":\"2.0\",\"id\":\"a\",\"method\":\"nope\"}".to_vec());
    assert_eq!(
        reply_of(a),
        b"{\"jsonrpc\":\"2.0\",\"id\":\"a\",\"error\":{\"code\":-32601,\"message\":\"Method not found: nope\"}}"
            .to_vec()
    );
}

#[test]
fn request_with_quote_in_method_escapes_it() {
    let a = handle_body(&b"{\"id\":7,\"method\":\"a\\\"b\"}".to_vec());
    assert_eq!(
        reply_of(a),
        b"{\"jsonrpc\":\"2.0\",\"id\":7,\"error\":{\"code\":-32601,\"message\":\"Method not found: a\\\"b\"}}"
            .to_vec()
    );
}

#[test]
fn shutdown_then_exit_in_one_chunk() {
    let mut wire = frame(b"{\"jsonrpc\":\"2.0\",\"id\":3,\"method\":\"shutdown\"}");
    wire.extend(frame(b"{\"jsonrpc\":\"2.0\",\"method\":\"exit\"}"));
    let mut fb = FrameBuffer::new();
    let (out, exit) = handle_chunk(&mut fb, &wire);
    assert!(exit);
    assert_eq!(out, frame(b"{\"jsonrpc\":\"2.0\",\"id\":3,\"result\":null}"));
}

#[test]
fn nothing_is_written_after_exit() {
    let mut wire = frame(b"{\"jsonrpc\":\"2.0\",\"method\":\"exit\"}");
    wire.extend(frame(b"{\"jsonrpc\":\"2.0\",\"id\":9,\"method\":\"initialize\"}"));
    let mut fb = FrameBuffer::new();
    let (out, exit) = handle_chunk(&mut fb, &wire);
    assert!(exit);
    assert_eq!(out, Vec::<u8>::new());
}

#[test]
fn chunked_dispatch_matches_single_chunk() {
    let mut wire = frame(b"{\"jsonrpc\":\"2.0\",\"id\":1,\"method\":\"initialize\"}");
    wire.extend(frame(b"{\"jsonrpc\":\"2.0\",\"id\":2,\"method\":\"x\"}"));
    let mut fb_all = FrameBuffer::new();
    let (out_all, exit_all) = handle_chunk(&mut fb_all, &wire);
    let mut fb_one = FrameBuffer::new();
    let mut out_one: Vec<u8> = Vec::new();
    let mut exited = false;
    for b in &wire {
        let (o, e) = handle_chunk(&mut fb_one, &vec![*b]);
        out_one.extend(o);
        if e {
            exited = true;
            break;
        }
    }
    assert_eq!(out_all, out_one);
    assert_eq!(exit_all, exited);
}
