//! `SidecarClient`: the native sidecar's callback transport to host MCP tools.
//!
//! A native sidecar calls host MCP tools the way an edge user does: an authenticated
//! `POST {gateway}/mcp/call` with a `{tool, args}` body and the child's scoped token as
//! `Authorization: Bearer`. A `403` is the host's capability/workspace refusal
//! ([`CallError::Denied`]); any other non-success status is [`CallError::Http`]. The HTTP exchange
//! itself is the caller's; this holds the client and the config and decides what a response means.

use vstd::prelude::*;

use crate::call_error::CallError;
use crate::config::Config;
use crate::text::{owned, push_str};

verus! {

/// `reqwest`'s asynchronous HTTP client, carried through opaquely.
#[verifier::external_type_specification]
#[verifier::external_body]
pub struct ExReqwestClient(reqwest::Client);

/// `reqwest::Client::new`: a pooled HTTP client with the default configuration.
///
/// Nothing is claimed of the client. With the features this crate enables (no TLS backend, the
/// default resolver), building the default client has no failing path, so the call does not panic.
#[verifier::external_body]
fn new_http_client() -> reqwest::Client {
    reqwest::Client::new()
}

/// `<reqwest::Client as Clone>::clone`: another handle on the same connection pool.
///
/// Nothing is claimed of the handle it returns.
pub assume_specification[ <reqwest::Client as Clone>::clone ](c: &reqwest::Client) -> reqwest::Client;

/// A reusable client for host MCP callbacks: one pooled HTTP client (connection reuse across many
/// calls) and the resolved [`Config`].
#[derive(Clone)]
pub struct SidecarClient {
    http: reqwest::Client,
    config: Config,
}

/// How a callback's HTTP status is read.
#[derive(Debug, Clone, Copy, PartialEq, Eq)]
pub enum StatusClass {
    /// `2xx`: the body is the tool's JSON result.
    Success,
    /// `403`: the host's capability/workspace gate refused the call.
    Denied,
    /// Any other status: the body is the host's error message.
    Failure,
}

/// Reads a callback's HTTP status: `2xx` is success, `403` the distinct refusal, anything else a
/// failure.
pub fn classify_status(status: u16) -> (c: StatusClass)
    ensures
        200 <= status <= 299 ==> c == StatusClass::Success,
        status == 403 ==> c == StatusClass::Denied,
        !(200 <= status <= 299) && status != 403 ==> c == StatusClass::Failure,
{
    if 200 <= status && status <= 299 {
        StatusClass::Success
    } else if status == 403 {
        StatusClass::Denied
    } else {
        StatusClass::Failure
    }
}

impl SidecarClient {
    /// The client's configuration.
    pub closed spec fn spec_config(&self) -> Config {
        self.config
    }

    /// The client's pooled HTTP client.
    pub closed spec fn spec_http(&self) -> reqwest::Client {
        self.http
    }

    /// Builds a client from the injected environment values (see [`Config::from_env`]): fails with
    /// [`CallError::NoToken`] or [`CallError::NoGateway`] when the supervisor identity is absent.
    pub fn from_env(
        token: Option<String>,
        gateway_url: Option<String>,
        ext_id: Option<String>,
        ws: Option<String>,
    ) -> (r: Result<Self, CallError>)
        ensures
            !crate::config::present(token) ==> r matches Err(CallError::NoToken),
            crate::config::present(token) && !crate::config::present(gateway_url) ==> r matches Err(
                CallError::NoGateway,
            ),
            crate::config::present(token) && crate::config::present(gateway_url) ==> match r {
                Ok(c) => {
                    &&& c.spec_config().token@ == crate::config::value_or_empty(token)
                    &&& c.spec_config().gateway_url@ == crate::config::trim_trailing_slashes(
                        crate::config::value_or_empty(gateway_url),
                    )
                    &&& c.spec_config().ext_id@ == crate::config::value_or_empty(ext_id)
                    &&& c.spec_config().ws@ == crate::config::value_or_empty(ws)
                },
                Err(_) => false,
            },
    {
        match Config::from_env(token, gateway_url, ext_id, ws) {
            Ok(config) => Ok(Self::with_config(config)),
            Err(e) => Err(e),
        }
    }

    /// Builds a client from an explicit [`Config`].
    pub fn with_config(config: Config) -> (c: Self)
        ensures
            c.spec_config() == config,
    {
        SidecarClient { http: new_http_client(), config }
    }

    /// The workspace the child is scoped to (diagnostics only: the wire workspace is the token's).
    pub fn ws(&self) -> (w: &str)
        ensures
            w@ == self.spec_config().ws@,
    {
        self.config.ws.as_str()
    }

    /// The configuration the client carries.
    pub fn config(&self) -> (c: &Config)
        ensures
            *c == self.spec_config(),
    {
        &self.config
    }

    /// The pooled HTTP client: the one this client holds, so every call shares its connections.
    pub fn http(&self) -> (h: &reqwest::Client)
        ensures
            *h == self.spec_http(),
    {
        &self.http
    }

    /// Where a callback is posted: the gateway's `/mcp/call`.
    pub fn call_url(&self) -> (u: String)
        ensures
            u@ == self.spec_config().gateway_url@ + "/mcp/call"@,
    {
        let mut u = owned(self.config.gateway_url.as_str());
        push_str(&mut u, "/mcp/call");
        u
    }
}

} // verus!
