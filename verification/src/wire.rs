//! The control-wire shapes the host and a native extension exchange over the framed line.
//!
//! A small, closed method set: `init` (handshake), `health` (liveness poll), `call` (dispatch a
//! tool), `shutdown` (cooperative drain). The host sends [`Request`]; the child replies [`Reply`].
//! Method-specific arguments ride `params` as an opaque JSON string.

use vstd::prelude::*;

verus! {

/// A request from the host to the child. `id` correlates the reply; `method` is the verb.
#[derive(Debug, Clone, PartialEq, Eq)]
pub struct Request {
    pub id: u64,
    pub method: Method,
    /// Method-specific arguments as a raw JSON string. Empty for `init`/`health`/`shutdown`.
    pub params: String,
}

/// The closed set of control methods. A new method is a deliberate protocol change.
#[derive(Debug, Clone, Copy, PartialEq, Eq, Structural)]
pub enum Method {
    /// Handshake: the host asks the child to confirm it is ready. Sent once, right after spawn.
    Init,
    /// Liveness poll: the child must reply within the host's health window.
    Health,
    /// Dispatch a tool: `params` carries a [`CallParams`] JSON.
    Call,
    /// Cooperative shutdown: the child should drain and exit.
    Shutdown,
}

/// A reply from the child, correlated by `id`. Exactly one of `result`/`error` is set.
#[derive(Debug, Clone, PartialEq, Eq)]
pub struct Reply {
    pub id: u64,
    /// The success payload (a raw JSON string), present when the call succeeded.
    pub result: Option<String>,
    /// The error message, present when the call failed.
    pub error: Option<String>,
}

impl Reply {
    /// Exactly one of `result` and `error` is set.
    pub open spec fn well_formed(&self) -> bool {
        self.result is Some != self.error is Some
    }

    /// A successful reply whose result has the characters `v`.
    pub open spec fn is_ok_with(&self, v: Seq<char>) -> bool {
        &&& self.error is None
        &&& match self.result {
            Some(x) => x@ == v,
            None => false,
        }
    }

    /// A failed reply whose error has the characters `m`.
    pub open spec fn is_err_with(&self, m: Seq<char>) -> bool {
        &&& self.result is None
        &&& match self.error {
            Some(x) => x@ == m,
            None => false,
        }
    }

    /// A successful reply carrying `result`.
    pub fn ok(id: u64, result: String) -> (r: Self)
        ensures
            r.id == id,
            r.result == Some(result),
            r.error is None,
            r.well_formed(),
    {
        Reply { id, result: Some(result), error: None }
    }

    /// A failed reply carrying the message `error`.
    pub fn err(id: u64, error: String) -> (r: Self)
        ensures
            r.id == id,
            r.result is None,
            r.error == Some(error),
            r.well_formed(),
    {
        Reply { id, result: None, error: Some(error) }
    }
}

/// The `params` of a [`Method::Call`]: which tool, its opaque-JSON input, and who the host already
/// authorized for this call. `caller` is absent on an old host's frame.
#[derive(Debug, Clone, PartialEq, Eq)]
pub struct CallParams {
    pub tool: String,
    pub input: String,
    /// A minimal, non-replayable projection of the principal the host authorized for this call.
    pub caller: Option<Caller>,
}

/// The least a per-caller row filter needs of the caller the host authorized: who (`sub`), which
/// tenant (`ws`), which role, and whether it acts on behalf of another principal. It is not a
/// token and confers nothing by itself.
#[derive(Debug, Clone, PartialEq, Eq)]
pub struct Caller {
    /// The global identity the host authorized (`user:…` / `key:…` / `agent:…`).
    pub sub: String,
    /// The workspace the call is scoped to.
    pub ws: String,
    /// The caller's role, lower-cased.
    pub role: String,
    /// True when the caller is itself a derived (on-behalf-of) principal.
    pub delegated: bool,
}

} // verus!
