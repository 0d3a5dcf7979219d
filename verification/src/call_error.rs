//! The typed error a native sidecar sees when it calls back into the host.
//!
//! A capability denial is a first-class, distinct variant, never conflated with a transport
//! failure, so a sidecar can react to "the host refused me" differently from "the host was
//! unreachable". No variant carries the token or the workspace.

use vstd::prelude::*;

use crate::text::{decimal_chars, owned, push_decimal_str, push_str};

verus! {

/// Why a `call_tool` callback failed.
#[derive(Debug)]
pub enum CallError {
    /// The host refused the call at its capability/workspace gate (HTTP `403`).
    Denied,
    /// `LB_GATEWAY_URL` was not injected: the sidecar cannot call host tools at all.
    NoGateway,
    /// `LB_EXT_TOKEN` is not in the environment: the host cannot authenticate the callback.
    NoToken,
    /// The host answered with a non-`403` error status; carries the status and the host's message.
    Http { status: u16, message: String },
    /// The request never reached a clean HTTP response (connect, timeout, TLS or DNS failure).
    Transport(String),
    /// The host's `2xx` body was not the JSON the caller expected.
    Decode(String),
}

impl CallError {
    /// The line this error is logged as.
    pub fn message(&self) -> (m: String)
        ensures
            m@ == self.spec_message(),
    {
        match self {
            CallError::Denied => owned("host denied the call (capability/workspace gate)"),
            CallError::NoGateway => owned("no callback address: LB_GATEWAY_URL is not set"),
            CallError::NoToken => owned("no callback credential: LB_EXT_TOKEN is not set"),
            CallError::Http { status, message } => {
                let mut m = owned("host returned HTTP ");
                push_decimal_str(&mut m, *status as u64);
                push_str(&mut m, ": ");
                push_str(&mut m, message.as_str());
                m
            },
            CallError::Transport(e) => {
                let mut m = owned("transport error reaching the host: ");
                push_str(&mut m, e.as_str());
                m
            },
            CallError::Decode(e) => {
                let mut m = owned("could not decode the host response: ");
                push_str(&mut m, e.as_str());
                m
            },
        }
    }

    pub open spec fn spec_message(&self) -> Seq<char> {
        match self {
            CallError::Denied => "host denied the call (capability/workspace gate)"@,
            CallError::NoGateway => "no callback address: LB_GATEWAY_URL is not set"@,
            CallError::NoToken => "no callback credential: LB_EXT_TOKEN is not set"@,
            CallError::Http { status, message } => "host returned HTTP "@ + decimal_chars(
                *status as nat,
            ) + ": "@ + message@,
            CallError::Transport(e) => "transport error reaching the host: "@ + e@,
            CallError::Decode(e) => "could not decode the host response: "@ + e@,
        }
    }
}

} // verus!
