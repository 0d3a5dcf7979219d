//! The `init` handshake payload and its protocol-version gate.
//!
//! The host sends `Request{method: Init}` and the child replies with an [`InitReply`] JSON as the
//! reply `result`: the protocol major it was built against plus the tools it is prepared to serve.
//! The host compares the major against its own and refuses a mismatch.

use vstd::prelude::*;

verus! {

/// Major version of the native sidecar wire protocol. Bumping it breaks every native extension
/// built against an older SDK: a deliberate, rare act.
pub const PROTOCOL_MAJOR: u64 = 0;

/// The child's reply to the host's `init` request: the wire major it speaks and the tools it serves.
#[derive(Debug, Clone, PartialEq, Eq)]
pub struct InitReply {
    /// The wire protocol major this child was built against: [`PROTOCOL_MAJOR`].
    pub protocol_major: u64,
    /// The tools this child implements, so the host can reject a dispatch for an unknown tool early.
    pub tools: Vec<String>,
}

impl InitReply {
    /// Builds the child's `init` reply, stamping the compiled-in [`PROTOCOL_MAJOR`].
    pub fn new(tools: Vec<String>) -> (r: Self)
        ensures
            r.protocol_major == PROTOCOL_MAJOR,
            r.tools == tools,
    {
        InitReply { protocol_major: PROTOCOL_MAJOR, tools }
    }

    /// Host-side check: is this child's protocol major compatible with `host_major`?
    /// Compatibility is major equality.
    pub fn compatible_with(&self, host_major: u64) -> (r: bool)
        ensures
            r == (self.protocol_major == host_major),
    {
        self.protocol_major == host_major
    }
}

/// A reply built by [`InitReply::new`] (which stamps [`PROTOCOL_MAJOR`]) is compatible with a host
/// exactly when that host speaks [`PROTOCOL_MAJOR`].
pub proof fn lemma_fresh_reply_compatibility(reply: InitReply, host_major: u64)
    requires
        reply.protocol_major == PROTOCOL_MAJOR,
    ensures
        (reply.protocol_major == host_major) <==> (host_major == PROTOCOL_MAJOR),
{
}

} // verus!
