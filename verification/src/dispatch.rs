//! Message dispatch for the protocol stub: what one decoded message body makes
//! the stub do, and what running a whole input chunk through framing and
//! dispatch writes back.
//!
//! The stub answers `initialize` with an empty capability set, `shutdown` with
//! a null result, terminates on `exit`, answers any other request with a
//! method-not-found error, and stays silent on notifications and on bodies
//! that do not parse.

use vstd::prelude::*;
use vstd::string::StrSliceExecFns;
use vstd::string::StringSliceAdditionalSpecFns;
use crate::frame::{spec_drain, spec_encode, encode_frame, FrameBuffer};
use crate::text::{append_bytes, json_escaped, escape_json_bytes, bytes_eq, opt_view};

verus! {

/// The method and the raw JSON text of the id of a message body, when the body
/// is valid JSON; nothing when it is not. The method is present only when the
/// body carries a JSON string under `method`; the id is the compact JSON
/// rendering of whatever sits under `id`.
pub uninterp spec fn json_message_of(body: Seq<u8>) -> Option<(Option<Seq<u8>>, Option<Seq<u8>>)>;

pub open spec fn parsed_view(r: Option<(Option<Vec<u8>>, Option<Vec<u8>>)>) -> Option<
    (Option<Seq<u8>>, Option<Seq<u8>>),
> {
    match r {
        None => None,
        Some((m, id)) => Some((opt_view(m), opt_view(id))),
    }
}

/// Relies on serde_json::from_slice to accept exactly the valid JSON bodies,
/// and on serde_json::Value::get, the Value::String variant and Value's
/// Display form (compact JSON) to read the `method` string and render the
/// `id` value; all of it a function of the input bytes alone.
#[verifier::external_body]
fn parse_message(body: &Vec<u8>) -> (r: Option<(Option<Vec<u8>>, Option<Vec<u8>>)>)
    ensures
        parsed_view(r) == json_message_of(body@),
{
    let v: serde_json::Value = match serde_json::from_slice(body.as_slice()) {
        Ok(v) => v,
        Err(_) => return None,
    };
    let method = match v.get("method") {
        Some(serde_json::Value::String(s)) => Some(s.clone().into_bytes()),
        _ => None,
    };
    let id = match v.get("id") {
        Some(i) => Some(i.to_string().into_bytes()),
        None => None,
    };
    Some((method, id))
}

pub open spec fn method_initialize() -> Seq<u8> {
    "initialize".spec_bytes()
}

pub open spec fn method_shutdown() -> Seq<u8> {
    "shutdown".spec_bytes()
}

pub open spec fn method_exit() -> Seq<u8> {
    "exit".spec_bytes()
}

/// How the method appears in a method-not-found message when the message has
/// no method at all.
pub open spec fn absent_method_text() -> Seq<u8> {
    "undefined".spec_bytes()
}

pub open spec fn method_text(m: Option<Seq<u8>>) -> Seq<u8> {
    match m {
        Some(v) => v,
        None => absent_method_text(),
    }
}

/// Response to `initialize`: an intentionally empty capability set.
pub open spec fn init_response(id: Option<Seq<u8>>) -> Seq<u8> {
    match id {
        Some(i) => "{\"jsonrpc\":\"2.0\",\"id\":".spec_bytes() + i
            + ",\"result\":{\"capabilities\":{}}}".spec_bytes(),
        None => "{\"jsonrpc\":\"2.0\"".spec_bytes()
            + ",\"result\":{\"capabilities\":{}}}".spec_bytes(),
    }
}

/// Response to `shutdown`: a null result; the process stays alive for `exit`.
pub open spec fn shutdown_response(id: Option<Seq<u8>>) -> Seq<u8> {
    match id {
        Some(i) => "{\"jsonrpc\":\"2.0\",\"id\":".spec_bytes() + i + ",\"result\":null}".spec_bytes(
        ),
        None => "{\"jsonrpc\":\"2.0\"".spec_bytes() + ",\"result\":null}".spec_bytes(),
    }
}

/// Method-not-found response for a request whose method the stub does not
/// implement.
pub open spec fn error_response(id: Seq<u8>, m: Option<Seq<u8>>) -> Seq<u8> {
    "{\"jsonrpc\":\"2.0\",\"id\":".spec_bytes() + id
        + ",\"error\":{\"code\":-32601,\"message\":\"Method not found: ".spec_bytes()
        + json_escaped(method_text(m)) + "\"}}".spec_bytes()
}

/// What one message body makes the stub do.
pub enum StubAction {
    /// Write this body back, framed, as one emission.
    Reply(Vec<u8>),
    /// Terminate at once with success status.
    Exit,
    /// Do nothing and keep reading.
    Silent,
}

/// Ghost image of a `StubAction`.
pub enum SpecAction {
    Reply(Seq<u8>),
    Exit,
    Silent,
}

pub open spec fn action_view(a: StubAction) -> SpecAction {
    match a {
        StubAction::Reply(r) => SpecAction::Reply(r@),
        StubAction::Exit => SpecAction::Exit,
        StubAction::Silent => SpecAction::Silent,
    }
}

/// The dispatch rule, one message body at a time: parse failures and
/// notifications are silent, `exit` terminates, the three known shapes of
/// request get exactly one response each.
pub open spec fn spec_action(body: Seq<u8>) -> SpecAction {
    match json_message_of(body) {
        None => SpecAction::Silent,
        Some((m, id)) => if m == Some(method_initialize()) {
            SpecAction::Reply(init_response(id))
        } else if m == Some(method_shutdown()) {
            SpecAction::Reply(shutdown_response(id))
        } else if m == Some(method_exit()) {
            SpecAction::Exit
        } else {
            match id {
                Some(i) => SpecAction::Reply(error_response(i, m)),
                None => SpecAction::Silent,
            }
        },
    }
}

/// Decide what to do with one decoded message body.
pub fn handle_body(body: &Vec<u8>) -> (a: StubAction)
    ensures
        action_view(a) == spec_action(body@),
{
    match parse_message(body) {
        None => StubAction::Silent,
        Some((m_opt, id_opt)) => {
            let is_init = match &m_opt {
                Some(m) => bytes_eq(m, &"initialize".as_bytes_vec()),
                None => false,
            };
            let is_shutdown = match &m_opt {
                Some(m) => bytes_eq(m, &"shutdown".as_bytes_vec()),
                None => false,
            };
            let is_exit = match &m_opt {
                Some(m) => bytes_eq(m, &"exit".as_bytes_vec()),
                None => false,
            };
            if is_init {
                StubAction::Reply(build_result_response(&id_opt, true))
            } else if is_shutdown {
                StubAction::Reply(build_result_response(&id_opt, false))
            } else if is_exit {
                StubAction::Exit
            } else {
                match id_opt {
                    Some(id) => StubAction::Reply(build_error_response(&id, &m_opt)),
                    None => StubAction::Silent,
                }
            }
        },
    }
}

/// Build the `initialize` or `shutdown` response around the request's id.
fn build_result_response(id: &Option<Vec<u8>>, is_init: bool) -> (r: Vec<u8>)
    ensures
        is_init ==> r@ == init_response(opt_view(*id)),
        !is_init ==> r@ == shutdown_response(opt_view(*id)),
{
    let mut r: Vec<u8> = Vec::new();
    match id {
        Some(i) => {
            append_bytes(&mut r, &"{\"jsonrpc\":\"2.0\",\"id\":".as_bytes_vec());
            append_bytes(&mut r, i);
        },
        None => {
            append_bytes(&mut r, &"{\"jsonrpc\":\"2.0\"".as_bytes_vec());
        },
    }
    if is_init {
        append_bytes(&mut r, &",\"result\":{\"capabilities\":{}}}".as_bytes_vec());
    } else {
        append_bytes(&mut r, &",\"result\":null}".as_bytes_vec());
    }
    proof {
        if is_init {
            assert(r@ =~= init_response(opt_view(*id)));
        } else {
            assert(r@ =~= shutdown_response(opt_view(*id)));
        }
    }
    r
}

/// Build the method-not-found response around the request's id and method.
fn build_error_response(id: &Vec<u8>, m: &Option<Vec<u8>>) -> (r: Vec<u8>)
    ensures
        r@ == error_response(id@, opt_view(*m)),
{
    let mut r: Vec<u8> = Vec::new();
    append_bytes(&mut r, &"{\"jsonrpc\":\"2.0\",\"id\":".as_bytes_vec());
    append_bytes(&mut r, id);
    append_bytes(
        &mut r,
        &",\"error\":{\"code\":-32601,\"message\":\"Method not found: ".as_bytes_vec(),
    );
    let text = match m {
        Some(v) => escape_json_bytes(v),
        None => escape_json_bytes(&"undefined".as_bytes_vec()),
    };
    append_bytes(&mut r, &text);
    append_bytes(&mut r, &"\"}}".as_bytes_vec());
    proof {
        assert(r@ =~= error_response(id@, opt_view(*m)));
    }
    r
}

/// The output of dispatching a run of message bodies in order: every reply,
/// framed, until an `exit` (whose later bodies go unread), and whether an
/// `exit` was hit.
pub open spec fn spec_run(bodies: Seq<Seq<u8>>) -> (Seq<u8>, bool)
    decreases bodies.len(),
{
    if bodies.len() == 0 {
        (Seq::<u8>::empty(), false)
    } else {
        match spec_action(bodies[0]) {
            SpecAction::Exit => (Seq::<u8>::empty(), true),
            SpecAction::Reply(resp) => {
                let rest = spec_run(bodies.drop_first());
                (spec_encode(resp) + rest.0, rest.1)
            },
            SpecAction::Silent => spec_run(bodies.drop_first()),
        }
    }
}

/// One turn of the stub's read loop: absorb a chunk, extract every complete
/// message, dispatch each in order, and hand back the bytes to write in one
/// logical emission per response, plus whether the process must now exit.
pub fn handle_chunk(fb: &mut FrameBuffer, chunk: &Vec<u8>) -> (r: (Vec<u8>, bool))
    ensures
        ({
            let d = spec_drain(old(fb).buffered() + chunk@, old(fb).awaiting());
            let run = spec_run(d.0);
            &&& r.0@ == run.0
            &&& r.1 == run.1
            &&& final(fb).buffered() == d.1
            &&& final(fb).awaiting() == d.2
        }),
{
    let msgs = fb.feed(chunk);
    let ghost all = msgs@.map_values(|m: Vec<u8>| m@);
    let mut out: Vec<u8> = Vec::new();
    proof {
        assert(all.skip(0) =~= all);
        assert(Seq::<u8>::empty() + spec_run(all).0 =~= spec_run(all).0);
    }
    let mut i: usize = 0;
    while i < msgs.len()
        invariant
            i <= msgs.len(),
            all == msgs@.map_values(|m: Vec<u8>| m@),
            ({
                let d = spec_drain(old(fb).buffered() + chunk@, old(fb).awaiting());
                all == d.0 && fb.buffered() == d.1 && fb.awaiting() == d.2
            }),
            spec_run(all).0 == out@ + spec_run(all.skip(i as int)).0,
            spec_run(all).1 == spec_run(all.skip(i as int)).1,
        decreases msgs.len() - i,
    {
        let ghost rem = all.skip(i as int);
        proof {
            assert(all[i as int] == msgs@[i as int]@);
            assert(rem.len() > 0);
            assert(rem[0] == all[i as int]);
            assert(rem.drop_first() =~= all.skip(i + 1 as int));
        }
        let ghost prev = out@;
        match handle_body(&msgs[i]) {
            StubAction::Reply(resp) => {
                let framed = encode_frame(&resp);
                append_bytes(&mut out, &framed);
                proof {
                    let rest = spec_run(all.skip(i + 1 as int));
                    assert(spec_run(rem).0 == spec_encode(resp@) + rest.0);
                    assert((prev + spec_encode(resp@)) + rest.0 =~= prev + (spec_encode(resp@)
                        + rest.0));
                }
            },
            StubAction::Exit => {
                proof {
                    assert(spec_run(rem).1 == true);
                    assert(spec_run(rem).0 =~= Seq::<u8>::empty());
                    assert(out@ + Seq::<u8>::empty() =~= out@);
                }
                return (out, true);
            },
            StubAction::Silent => {
                proof {
                    assert(spec_run(rem) == spec_run(all.skip(i + 1 as int)));
                }
            },
        }
        i += 1;
    }
    proof {
        assert(all.skip(all.len() as int) =~= Seq::<Seq<u8>>::empty());
        assert(out@ + Seq::<u8>::empty() =~= out@);
    }
    (out, false)
}

} // verus!
