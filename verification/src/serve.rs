//! The child-side serve loop's decisions.
//!
//! A native extension builds its [`Tools`] and serves the control wire: it reads framed
//! [`Request`]s, answers each, and stops when the host sends [`Method::Shutdown`] or closes the
//! stream. The four control methods map to the host's supervisor:
//!
//! - `init`     → reply the [`InitReply`] (protocol major + the tool list from [`Tools::tools`]).
//! - `health`   → reply `"ok"` immediately.
//! - `call`     → parse [`CallParams`], dispatch [`Tools::call_with_caller`], reply the tool's JSON
//!   or its error.
//! - `shutdown` → reply `"ok"`, then stop.
//!
//! The loop is sequential: one request, one reply. [`serve_step`] decides what one incoming frame
//! leads to; [`finish_call`] turns a dispatched call into its reply. Reading, writing and JSON are
//! the caller's.

use vstd::prelude::*;

use crate::handshake::{InitReply, PROTOCOL_MAJOR};
use crate::text::{owned, push_str};
use crate::wire::{CallParams, Caller, Method, Reply, Request};

verus! {

/// What a native extension implements: the set of tools it serves and how to run one.
///
/// The host addresses a tool by its bare name, passes opaque-JSON `input`, and expects opaque-JSON
/// back. An `Err` is surfaced to the host as the reply `error`, never a panic.
pub trait Tools: Sized + Send {
    /// The tool names this extension serves, reported in the `init` handshake. Order is not
    /// significant.
    fn tools(&self) -> Vec<String>;

    /// Runs `tool` with opaque-JSON `input`, returning opaque-JSON output or a human error string.
    fn call(&mut self, tool: &str, input: &str) -> Result<String, String>;

    /// Runs `tool` with `input`, given the authorized [`Caller`] the host stamped into the frame
    /// (`None` on an old host's frame). Override it to enforce per-caller row visibility.
    ///
    /// The default ignores the caller and forwards to [`call`](Tools::call).
    fn call_with_caller(&mut self, tool: &str, input: &str, caller: Option<Caller>) -> (r: Result<
        String,
        String,
    >)
        default_ensures
            exists|m: &mut Self|
                #![trigger call_ensures(Self::call, (m, tool, input), r)]
                mut_ref_current(m) == *old(self) && mut_ref_future(m) == *final(self)
                    && call_ensures(Self::call, (m, tool, input), r),
    {
        let _ = &caller;
        self.call(tool, input)
    }
}

/// One frame as the serve loop received it.
pub enum Incoming {
    /// Reading a frame failed: the host closed the stream (or sent garbage framing).
    Closed,
    /// A frame arrived whose body is not a request; carries the JSON parser's message.
    Malformed(String),
    /// A well-formed request.
    Request(Request),
}

/// What the serve loop does next.
pub enum Step {
    /// Stop serving, successfully.
    Stop,
    /// Send this reply and keep serving.
    Send(Reply),
    /// Send `init` serialized to JSON as the `result` of a reply to `id` (`"{}"` if it does not
    /// serialize), and keep serving.
    SendInit { id: u64, init: InitReply },
    /// Parse `params` as [`CallParams`], hand the outcome to [`finish_call`], send the reply it
    /// gives, and keep serving.
    Dispatch { id: u64, params: String },
    /// Send this reply, then stop serving.
    SendThenStop(Reply),
}

/// The reply to call `id` whose tool answered `outcome`.
pub open spec fn reply_for(id: u64, outcome: Result<String, String>) -> Reply {
    match outcome {
        Ok(out) => Reply { id, result: Some(out), error: None },
        Err(msg) => Reply { id, result: None, error: Some(msg) },
    }
}

/// `"ok"`, JSON-quoted: the result of `health` and `shutdown`.
pub open spec fn ok_json() -> Seq<char> {
    "\"ok\""@
}

/// What `serve_step` decides for `incoming`: a closed stream stops; a body that is not a request
/// is answered on id 0 with `bad request json: …`; `init` is answered with the protocol major
/// on the request's id; `health` answers `"ok"`; `call` is dispatched with its id and params;
/// `shutdown` answers `"ok"`, then stops.
pub open spec fn step_follows(incoming: Incoming, s: Step) -> bool {
    match incoming {
        Incoming::Closed => s is Stop,
        Incoming::Malformed(e) => match s {
            Step::Send(r) => r.id == 0 && r.is_err_with("bad request json: "@ + e@),
            _ => false,
        },
        Incoming::Request(req) => match req.method {
            Method::Init => match s {
                Step::SendInit { id, init } => id == req.id && init.protocol_major
                    == PROTOCOL_MAJOR,
                _ => false,
            },
            Method::Health => match s {
                Step::Send(r) => r.id == req.id && r.is_ok_with(ok_json()),
                _ => false,
            },
            Method::Call => match s {
                Step::Dispatch { id, params } => id == req.id && params@ == req.params@,
                _ => false,
            },
            Method::Shutdown => match s {
                Step::SendThenStop(r) => r.id == req.id && r.is_ok_with(ok_json()),
                _ => false,
            },
        },
    }
}

/// Decides what one incoming frame leads to.
///
/// A closed stream is a clean stop. A body that is not a request is answered on id 0 (there is no
/// id to correlate) and serving goes on. `init` reports the protocol major and the tool list,
/// `health` answers `"ok"`, `call` is dispatched, `shutdown` answers `"ok"` and stops.
pub fn serve_step<T: Tools>(tools: &mut T, incoming: Incoming) -> (s: Step)
    ensures
        *final(tools) == *old(tools),
        step_follows(incoming, s),
        incoming matches Incoming::Request(req) && req.method is Init ==> match s {
            Step::SendInit { init, .. } => call_ensures(T::tools, (&*old(tools),), init.tools),
            _ => false,
        },
{
    match incoming {
        Incoming::Closed => Step::Stop,
        Incoming::Malformed(e) => {
            let mut m = owned("bad request json: ");
            push_str(&mut m, e.as_str());
            Step::Send(Reply::err(0, m))
        },
        Incoming::Request(req) => match req.method {
            Method::Init => Step::SendInit { id: req.id, init: InitReply::new(tools.tools()) },
            Method::Health => Step::Send(Reply::ok(req.id, owned("\"ok\""))),
            Method::Call => Step::Dispatch { id: req.id, params: req.params },
            Method::Shutdown => Step::SendThenStop(Reply::ok(req.id, owned("\"ok\""))),
        },
    }
}

/// Dispatches a call through [`Tools::call_with_caller`]. `params` is the outcome of parsing the
/// request's `params` as [`CallParams`]: a parse failure (its message) becomes the child error
/// `bad call params: …` without reaching the tools; parsed params reach
/// [`Tools::call_with_caller`] as they are (tool, input and caller), and its answer is the result.
pub fn dispatch_call<T: Tools>(tools: &mut T, params: Result<CallParams, String>) -> (r: Result<
    String,
    String,
>)
    ensures
        params matches Err(e) ==> *final(tools) == *old(tools) && match r {
            Err(m) => m@ == "bad call params: "@ + e@,
            Ok(_) => false,
        },
        // Parsed params reach the tools as they are: tool, input and caller.
        params matches Ok(c) ==> exists|m: &mut T, t: &str, i: &str|
            #![trigger call_ensures(T::call_with_caller, (m, t, i, c.caller), r)]
            mut_ref_current(m) == *old(tools) && mut_ref_future(m) == *final(tools) && t@
                == c.tool@ && i@ == c.input@ && call_ensures(
                T::call_with_caller,
                (m, t, i, c.caller),
                r,
            ),
{
    match params {
        Err(e) => {
            let mut m = owned("bad call params: ");
            push_str(&mut m, e.as_str());
            Err(m)
        },
        Ok(call) => tools.call_with_caller(call.tool.as_str(), call.input.as_str(), call.caller),
    }
}

/// The reply to call `id` whose tool gave `outcome`: its output as the `result`, or its error as
/// the `error`.
pub fn call_reply(id: u64, outcome: Result<String, String>) -> (r: Reply)
    ensures
        r == reply_for(id, outcome),
        r.id == id,
        r.well_formed(),
        outcome matches Ok(out) ==> r.result == Some(out),
        outcome matches Err(msg) ==> r.error == Some(msg),
{
    match outcome {
        Ok(out) => Reply::ok(id, out),
        Err(msg) => Reply::err(id, msg),
    }
}

/// Finishes a [`Step::Dispatch`]: dispatches the parsed params and builds the reply to `id`.
pub fn finish_call<T: Tools>(tools: &mut T, id: u64, params: Result<CallParams, String>) -> (r:
    Reply)
    ensures
        r.id == id,
        r.well_formed(),
        params matches Err(e) ==> *final(tools) == *old(tools) && r.is_err_with(
            "bad call params: "@ + e@,
        ),
        // The tools' answer to the parsed params is the reply.
        params matches Ok(c) ==> exists|m: &mut T, t: &str, i: &str, out: Result<String, String>|
            #![trigger call_ensures(T::call_with_caller, (m, t, i, c.caller), out)]
            mut_ref_current(m) == *old(tools) && mut_ref_future(m) == *final(tools) && t@
                == c.tool@ && i@ == c.input@ && call_ensures(
                T::call_with_caller,
                (m, t, i, c.caller),
                out,
            ) && r == reply_for(id, out),
{
    let outcome = dispatch_call(tools, params);
    call_reply(id, outcome)
}

/* ---------- a run over a sequence of frames ---------- */

/// The id of the one reply a step leads to: the reply it sends, the init reply, or (for a
/// dispatch) the reply [`finish_call`] builds. `None` when it stops without replying.
pub open spec fn step_reply_id(s: Step) -> Option<u64> {
    match s {
        Step::Stop => None,
        Step::Send(r) => Some(r.id),
        Step::SendInit { id, .. } => Some(id),
        Step::Dispatch { id, .. } => Some(id),
        Step::SendThenStop(r) => Some(r.id),
    }
}

/// Serving ends after this step.
pub open spec fn step_stops(s: Step) -> bool {
    s is Stop || s is SendThenStop
}

/// The reply this step sends itself is well formed (the init reply and a dispatched call's reply
/// are built by `Reply::ok` and [`finish_call`], which are well formed by their contracts).
pub open spec fn step_reply_well_formed(s: Step) -> bool {
    match s {
        Step::Send(r) => r.well_formed(),
        Step::SendThenStop(r) => r.well_formed(),
        _ => true,
    }
}

/// How many frames a serve loop that takes `steps` in turn reads: up to and including the first
/// step that stops it.
pub open spec fn run_length(steps: Seq<Step>) -> nat
    decreases steps.len(),
{
    if steps.len() == 0 {
        0
    } else if step_stops(steps[0]) {
        1
    } else {
        1 + run_length(steps.drop_first())
    }
}

/// The ids of the replies a serve loop that takes `steps` in turn writes, in order.
pub open spec fn run_reply_ids(steps: Seq<Step>) -> Seq<u64>
    decreases steps.len(),
{
    if steps.len() == 0 {
        Seq::empty()
    } else {
        let head = match step_reply_id(steps[0]) {
            Some(i) => seq![i],
            None => Seq::<u64>::empty(),
        };
        if step_stops(steps[0]) {
            head
        } else {
            head + run_reply_ids(steps.drop_first())
        }
    }
}

/// The index of the first `shutdown` request.
pub open spec fn first_shutdown_from(reqs: Seq<Request>, i: int) -> Option<int>
    decreases reqs.len() - i,
{
    if i < 0 || i >= reqs.len() {
        None
    } else if reqs[i].method is Shutdown {
        Some(i)
    } else {
        first_shutdown_from(reqs, i + 1)
    }
}

/// How many of `reqs` are answered when they arrive in turn and the stream then ends: all of them
/// up to and including the first `shutdown`, or all of them when there is none.
pub open spec fn answered(reqs: Seq<Request>) -> nat {
    match first_shutdown_from(reqs, 0) {
        Some(k) => (k + 1) as nat,
        None => reqs.len(),
    }
}

proof fn lemma_first_shutdown_from_bounds(reqs: Seq<Request>, i: int)
    requires
        0 <= i,
    ensures
        first_shutdown_from(reqs, i) matches Some(k) ==> i <= k < reqs.len()
            && reqs[k].method is Shutdown && forall|j: int|
            i <= j < k ==> !(#[trigger] reqs[j].method is Shutdown),
        first_shutdown_from(reqs, i) is None ==> forall|j: int|
            i <= j < reqs.len() ==> !(#[trigger] reqs[j].method is Shutdown),
    decreases reqs.len() - i,
{
    if 0 <= i < reqs.len() && !(reqs[i].method is Shutdown) {
        lemma_first_shutdown_from_bounds(reqs, i + 1);
    }
}

proof fn lemma_run_from(reqs: Seq<Request>, steps: Seq<Step>, i: int)
    requires
        0 <= i <= reqs.len(),
        steps.len() == reqs.len() + 1,
        forall|j: int| 0 <= j < reqs.len() ==> step_follows(Incoming::Request(reqs[j]), #[trigger] steps[j]),
        step_follows(Incoming::Closed, steps[reqs.len() as int]),
        forall|j: int| 0 <= j < i ==> !(#[trigger] reqs[j].method is Shutdown),
    ensures
        ({
            let rest = steps.subrange(i, steps.len() as int);
            let answered_rest = match first_shutdown_from(reqs, i) {
                Some(k) => k + 1,
                None => reqs.len() as int,
            };
            &&& run_reply_ids(rest) == reqs.subrange(i, answered_rest).map_values(
                |r: Request| r.id,
            )
            &&& run_length(rest) == match first_shutdown_from(reqs, i) {
                Some(k) => k + 1 - i,
                None => reqs.len() + 1 - i as int,
            }
        }),
    decreases reqs.len() - i,
{
    let rest = steps.subrange(i, steps.len() as int);
    if i == reqs.len() {
        assert(rest =~= seq![steps[i]]);
        assert(steps[i] is Stop);
        assert(rest.drop_first() =~= Seq::<Step>::empty());
        assert(run_reply_ids(rest) =~= Seq::<u64>::empty());
        assert(reqs.subrange(i, reqs.len() as int) =~= Seq::<Request>::empty());
    } else {
        let req = reqs[i];
        let s = steps[i];
        assert(step_follows(Incoming::Request(req), s));
        assert(rest[0] == s);
        assert(step_reply_id(s) == Some(req.id));
        if req.method is Shutdown {
            assert(step_stops(s));
            assert(first_shutdown_from(reqs, i) == Some(i));
            assert(reqs.subrange(i, i + 1).map_values(|r: Request| r.id) =~= seq![req.id]);
        } else {
            assert(!step_stops(s));
            assert(first_shutdown_from(reqs, i) == first_shutdown_from(reqs, i + 1));
            lemma_run_from(reqs, steps, i + 1);
            assert(rest.drop_first() =~= steps.subrange(i + 1, steps.len() as int));
            lemma_first_shutdown_from_bounds(reqs, i + 1);
            let answered_rest = match first_shutdown_from(reqs, i) {
                Some(k) => k + 1,
                None => reqs.len() as int,
            };
            assert(reqs.subrange(i, answered_rest).map_values(|r: Request| r.id) =~= seq![req.id]
                + reqs.subrange(i + 1, answered_rest).map_values(|r: Request| r.id));
        }
    }
}

/// A serve loop fed requests `reqs` and then the end of the stream, whose steps follow
/// [`serve_step`]'s contract: it writes exactly one reply per request up to and including the
/// first `shutdown` (all of them if there is none), in order, each on its request's id; it reads
/// nothing after that `shutdown`; every reply it sends itself is well formed; and it dispatches
/// a tool call exactly for the `call` requests among those it answers.
pub proof fn lemma_serve_requests(reqs: Seq<Request>, steps: Seq<Step>)
    requires
        steps.len() == reqs.len() + 1,
        forall|j: int| 0 <= j < reqs.len() ==> step_follows(Incoming::Request(reqs[j]), #[trigger] steps[j]),
        step_follows(Incoming::Closed, steps[reqs.len() as int]),
    ensures
        run_reply_ids(steps) == reqs.take(answered(reqs) as int).map_values(|r: Request| r.id),
        run_length(steps) == match first_shutdown_from(reqs, 0) {
            Some(k) => k + 1,
            None => reqs.len() + 1 as int,
        },
        forall|j: int| 0 <= j < answered(reqs) ==> step_reply_well_formed(#[trigger] steps[j]),
        forall|j: int|
            0 <= j < answered(reqs) ==> ((#[trigger] steps[j] is Dispatch) <==> reqs[j].method is Call),
{
    lemma_run_from(reqs, steps, 0);
    assert(steps.subrange(0, steps.len() as int) =~= steps);
    assert(reqs.subrange(0, answered(reqs) as int) =~= reqs.take(answered(reqs) as int));
    lemma_first_shutdown_from_bounds(reqs, 0);
    assert forall|j: int| 0 <= j < answered(reqs) implies step_reply_well_formed(#[trigger] steps[j])
        && ((steps[j] is Dispatch) <==> reqs[j].method is Call) by {
        assert(step_follows(Incoming::Request(reqs[j]), steps[j]));
    }
}

/// A frame whose body is not a request is answered on id 0 with `bad request json: …` and
/// changes nothing else: the run goes on exactly as the run over the frames after it (the tools
/// are left as they were, by [`serve_step`]'s contract).
pub proof fn lemma_malformed_frame_answered_alone(e: String, s0: Step, steps: Seq<Step>)
    requires
        step_follows(Incoming::Malformed(e), s0),
    ensures
        s0 matches Step::Send(r) && r.id == 0 && r.is_err_with("bad request json: "@ + e@),
        run_reply_ids(seq![s0] + steps) == seq![0u64] + run_reply_ids(steps),
        run_length(seq![s0] + steps) == 1 + run_length(steps),
{
    let all = seq![s0] + steps;
    assert(all[0] == s0);
    assert(all.drop_first() =~= steps);
}

} // verus!
