use lb_ext_sdk::handshake::PROTOCOL_MAJOR;
use lb_ext_sdk::serve::{call_reply, dispatch_call, finish_call, serve_step, Incoming, Step, Tools};
use lb_ext_sdk::wire::{CallParams, Caller, Method, Request};

/// One tool, `echo`, that returns its input unchanged.
struct Echo;

impl Tools for Echo {
    fn tools(&self) -> Vec<String> {
        vec!["echo".into()]
    }

    fn call(&mut self, tool: &str, input: &str) -> Result<String, String> {
        match tool {
            "echo" => Ok(input.to_string()),
            other => Err(format!("unknown tool: {other}")),
        }
    }
}

/// Answers with the caller's `sub`, or `anon`.
struct WhoAmI;

impl Tools for WhoAmI {
    fn tools(&self) -> Vec<String> {
        vec!["whoami".into()]
    }

    fn call(&mut self, _tool: &str, _input: &str) -> Result<String, String> {
        Ok("\"anon\"".into())
    }

    fn call_with_caller(
        &mut self,
        _tool: &str,
        _input: &str,
        caller: Option<Caller>,
    ) -> Result<String, String> {
        Ok(format!("{:?}", caller.map(|c| c.sub).unwrap_or_else(|| "anon".into())))
    }
}

fn req(id: u64, method: Method) -> Incoming {
    Incoming::Request(Request { id, method, params: String::new() })
}

#[test]
fn init_reports_protocol_major_and_tools() {
    match serve_step(&mut Echo, req(0, Method::Init)) {
        Step::SendInit { id, init } => {
            assert_eq!(id, 0);
            assert_eq!(init.protocol_major, PROTOCOL_MAJOR);
            assert_eq!(init.tools, vec!["echo".to_string()]);
        }
        _ => panic!("init must be answered with the init reply"),
    }
}

#[test]
fn health_replies_ok() {
    match serve_step(&mut Echo, req(3, Method::Health)) {
        Step::Send(r) => {
            assert_eq!(r.id, 3);
            assert_eq!(r.result.as_deref(), Some("\"ok\""));
            assert!(r.error.is_none());
        }
        _ => panic!("health must be answered"),
    }
}

#[test]
fn shutdown_replies_then_stops() {
    match serve_step(&mut Echo, req(9, Method::Shutdown)) {
        Step::SendThenStop(r) => {
            assert_eq!(r.id, 9);
            assert_eq!(r.result.as_deref(), Some("\"ok\""));
        }
        _ => panic!("shutdown must reply then stop"),
    }
}

#[test]
fn closed_stream_stops_cleanly() {
    assert!(matches!(serve_step(&mut Echo, Incoming::Closed), Step::Stop));
}

#[test]
fn malformed_request_is_answered_on_id_zero() {
    match serve_step(&mut Echo, Incoming::Malformed("expected value".into())) {
        Step::Send(r) => {
            assert_eq!(r.id, 0);
            assert!(r.result.is_none());
            assert_eq!(r.error.as_deref(), Some("bad request json: expected value"));
        }
        _ => panic!("a malformed frame is answered and serving goes on"),
    }
}

#[test]
fn call_is_dispatched_to_the_tool() {
    let step = serve_step(
        &mut Echo,
        Incoming::Request(Request { id: 1, method: Method::Call, params: "{..}".into() }),
    );
    match step {
        Step::Dispatch { id, params } => {
            assert_eq!(id, 1);
            assert_eq!(params, "{..}");
        }
        _ => panic!("call must be dispatched"),
    }
    let parsed = Ok(CallParams {
        tool: "echo".into(),
        input: r#"{"hello":true}"#.into(),
        caller: None,
    });
    let r = finish_call(&mut Echo, 1, parsed);
    assert_eq!(r.id, 1);
    assert_eq!(r.result.as_deref(), Some(r#"{"hello":true}"#));
    assert!(r.error.is_none());
}

#[test]
fn unknown_tool_is_a_child_error() {
    let parsed = Ok(CallParams { tool: "nope".into(), input: "{}".into(), caller: None });
    let r = finish_call(&mut Echo, 2, parsed);
    assert!(r.result.is_none());
    assert!(r.error.as_deref().unwrap().contains("unknown tool"));
}

#[test]
fn bad_call_params_never_reach_the_tool() {
    let r = finish_call(&mut Echo, 4, Err("missing field `tool`".into()));
    assert_eq!(r.id, 4);
    assert_eq!(r.error.as_deref(), Some("bad call params: missing field `tool`"));
    assert_eq!(
        dispatch_call(&mut Echo, Err("eof".into())),
        Err("bad call params: eof".to_string())
    );
}

#[test]
fn the_frame_caller_reaches_the_tool() {
    let parsed = Ok(CallParams {
        tool: "whoami".into(),
        input: "{}".into(),
        caller: Some(Caller {
            sub: "user:ana".into(),
            ws: "acme".into(),
            role: "member".into(),
            delegated: false,
        }),
    });
    let r = finish_call(&mut WhoAmI, 1, parsed);
    assert!(r.result.as_deref().unwrap().contains("user:ana"));
    // The default `call_with_caller` forwards to `call`, ignoring the caller.
    let r = finish_call(
        &mut Echo,
        5,
        Ok(CallParams {
            tool: "echo".into(),
            input: "42".into(),
            caller: Some(Caller {
                sub: "user:bo".into(),
                ws: "w".into(),
                role: "member".into(),
                delegated: true,
            }),
        }),
    );
    assert_eq!(r.result.as_deref(), Some("42"));
}

#[test]
fn call_reply_carries_exactly_one_side() {
    let ok = call_reply(3, Ok("x".into()));
    assert_eq!((ok.id, ok.result.as_deref(), ok.error.as_deref()), (3, Some("x"), None));
    let err = call_reply(3, Err("e".into()));
    assert_eq!((err.id, err.result.as_deref(), err.error.as_deref()), (3, None, Some("e")));
}

/// Drives `serve_step` / `finish_call` over a list of frames the way the serve loop does, and
/// returns the ids of the replies it would write and how many frames it read.
fn run_frames(frames: Vec<Incoming>) -> (Vec<u64>, usize) {
    let mut tools = Echo;
    let mut ids = Vec::new();
    let mut read = 0;
    for incoming in frames {
        read += 1;
        match serve_step(&mut tools, incoming) {
            Step::Stop => break,
            Step::Send(r) => ids.push(r.id),
            Step::SendInit { id, .. } => ids.push(id),
            Step::Dispatch { id, .. } => {
                let parsed = Ok(CallParams { tool: "echo".into(), input: "42".into(), caller: None });
                let r = finish_call(&mut tools, id, parsed);
                assert_eq!(r.result.as_deref(), Some("42"));
                ids.push(r.id);
            }
            Step::SendThenStop(r) => {
                ids.push(r.id);
                break;
            }
        }
    }
    (ids, read)
}

#[test]
fn a_run_answers_each_frame_in_order_up_to_shutdown() {
    let frames = vec![
        req(0, Method::Init),
        req(1, Method::Call),
        req(2, Method::Shutdown),
        req(3, Method::Health),
        Incoming::Closed,
    ];
    assert_eq!(run_frames(frames), (vec![0, 1, 2], 3));
    let frames = vec![req(5, Method::Health), req(6, Method::Call), Incoming::Closed];
    assert_eq!(run_frames(frames), (vec![5, 6], 3));
}

#[test]
fn a_malformed_frame_is_answered_alone() {
    let rest = vec![req(4, Method::Health), Incoming::Closed];
    let mut frames = vec![Incoming::Malformed("x".into())];
    frames.extend(vec![req(4, Method::Health), Incoming::Closed]);
    let (ids, read) = run_frames(frames);
    let (rest_ids, rest_read) = run_frames(rest);
    assert_eq!(ids[0], 0);
    assert_eq!(ids[1..].to_vec(), rest_ids);
    assert_eq!(read, rest_read + 1);
}
