//! The sidecar's callback configuration: where to post host callbacks and what to authenticate
//! with, from the values the supervisor injects into the environment.

use vstd::prelude::*;

use crate::call_error::CallError;
use crate::text::{chars_of, string_of_range};

verus! {

/// The environment variable that names the child's workspace.
pub const WS_ENV: &'static str = "LB_EXT_WS";

/// The environment variable that names the child's extension id.
pub const ID_ENV: &'static str = "LB_EXT_ID";

/// The environment variable that holds the child's scoped token.
pub const TOKEN_ENV: &'static str = "LB_EXT_TOKEN";

/// The environment variable that holds the gateway's base URL.
pub const GATEWAY_ENV: &'static str = "LB_GATEWAY_URL";

/// The resolved callback context. The workspace is not sent on the wire (the host derives it from
/// the token); it is kept for the child's own diagnostics. The token is a bearer credential.
#[derive(Clone)]
pub struct Config {
    /// The gateway base URL to post `/mcp/call` to, e.g. `http://127.0.0.1:8080`. No trailing slash.
    pub gateway_url: String,
    /// The scoped `LB_EXT_TOKEN`, sent as `Authorization: Bearer`.
    pub token: String,
    /// The child's own extension id (`LB_EXT_ID`), for diagnostics.
    pub ext_id: String,
    /// The child's workspace (`LB_EXT_WS`), for diagnostics.
    pub ws: String,
}

/// `s` without its trailing `/` characters (`str::trim_end_matches('/')`).
pub open spec fn trim_trailing_slashes(s: Seq<char>) -> Seq<char>
    decreases s.len(),
{
    if s.len() > 0 && s.last() == '/' {
        trim_trailing_slashes(s.drop_last())
    } else {
        s
    }
}

/// After trimming, the text is empty or does not end with `/`.
pub proof fn lemma_no_trailing_slash(s: Seq<char>)
    ensures
        trim_trailing_slashes(s).len() == 0 || trim_trailing_slashes(s).last() != '/',
    decreases s.len(),
{
    if s.len() > 0 && s.last() == '/' {
        lemma_no_trailing_slash(s.drop_last());
    }
}

/// An environment value, an empty one counting as absent.
pub open spec fn present(v: Option<String>) -> bool {
    match v {
        Some(s) => s@.len() > 0,
        None => false,
    }
}

/// The characters of a present environment value, or none.
pub open spec fn value_or_empty(v: Option<String>) -> Seq<char> {
    match v {
        Some(s) => if s@.len() > 0 {
            s@
        } else {
            Seq::empty()
        },
        None => Seq::empty(),
    }
}

/// `gateway_url` without its trailing slashes.
fn without_trailing_slashes(gateway_url: &str) -> (r: String)
    ensures
        r@ == trim_trailing_slashes(gateway_url@),
{
    let c = chars_of(gateway_url);
    let mut end = c.len();
    assert(c@.subrange(0, c@.len() as int) == c@);
    while end > 0 && c[end - 1] == '/'
        invariant
            end <= c@.len(),
            trim_trailing_slashes(c@) == trim_trailing_slashes(c@.subrange(0, end as int)),
        decreases end,
    {
        assert(c@.subrange(0, end as int).drop_last() == c@.subrange(0, end - 1));
        end = end - 1;
    }
    assert(c@.subrange(0, c@.len() as int) == c@);
    string_of_range(c.as_slice(), 0, end)
}

/// A present environment value, or the empty string.
fn non_empty_or_default(v: Option<String>) -> (r: String)
    ensures
        r@ == value_or_empty(v),
{
    match v {
        Some(s) => if s.as_str().is_empty() {
            String::new()
        } else {
            s
        },
        None => String::new(),
    }
}

impl Config {
    /// Builds the config from the injected environment values (`LB_EXT_TOKEN`, `LB_GATEWAY_URL`,
    /// `LB_EXT_ID`, `LB_EXT_WS`, each `None` when unset). An empty value counts as unset. A missing
    /// token is [`CallError::NoToken`] (checked first); a missing gateway URL is
    /// [`CallError::NoGateway`]. The id and workspace default to empty.
    pub fn from_env(
        token: Option<String>,
        gateway_url: Option<String>,
        ext_id: Option<String>,
        ws: Option<String>,
    ) -> (r: Result<Self, CallError>)
        ensures
            !present(token) ==> r matches Err(CallError::NoToken),
            present(token) && !present(gateway_url) ==> r matches Err(CallError::NoGateway),
            present(token) && present(gateway_url) ==> match r {
                Ok(c) => {
                    &&& c.token@ == value_or_empty(token)
                    &&& c.gateway_url@ == trim_trailing_slashes(value_or_empty(gateway_url))
                    &&& c.ext_id@ == value_or_empty(ext_id)
                    &&& c.ws@ == value_or_empty(ws)
                },
                Err(_) => false,
            },
    {
        let token = match token {
            Some(t) => if t.as_str().is_empty() {
                return Err(CallError::NoToken);
            } else {
                t
            },
            None => {
                return Err(CallError::NoToken);
            },
        };
        let gateway_url = match gateway_url {
            Some(g) => if g.as_str().is_empty() {
                return Err(CallError::NoGateway);
            } else {
                g
            },
            None => {
                return Err(CallError::NoGateway);
            },
        };
        Ok(Config {
            gateway_url: without_trailing_slashes(gateway_url.as_str()),
            token,
            ext_id: non_empty_or_default(ext_id),
            ws: non_empty_or_default(ws),
        })
    }

    /// Builds a config from explicit values. The gateway URL loses its trailing slashes.
    pub fn new(gateway_url: String, token: String, ws: String, ext_id: String) -> (c: Self)
        ensures
            c.gateway_url@ == trim_trailing_slashes(gateway_url@),
            c.token == token,
            c.ws == ws,
            c.ext_id == ext_id,
    {
        Config { gateway_url: without_trailing_slashes(gateway_url.as_str()), token, ws, ext_id }
    }
}

} // verus!
