use lb_ext_sdk::call_error::CallError;
use lb_ext_sdk::client::{classify_status, SidecarClient, StatusClass};
use lb_ext_sdk::config::{Config, GATEWAY_ENV, ID_ENV, TOKEN_ENV, WS_ENV};

fn some(s: &str) -> Option<String> {
    Some(s.to_string())
}

#[test]
fn config_new_drops_trailing_slashes() {
    let c = Config::new("http://h:1//".into(), "t".into(), "acme".into(), "care".into());
    assert_eq!(c.gateway_url, "http://h:1");
    assert_eq!(c.token, "t");
    assert_eq!(c.ws, "acme");
    assert_eq!(c.ext_id, "care");
    let c = Config::new("http://h:1".into(), "t".into(), "w".into(), "e".into());
    assert_eq!(c.gateway_url, "http://h:1");
}

#[test]
fn from_env_requires_token_then_gateway() {
    assert!(matches!(
        Config::from_env(None, some("http://g"), None, None),
        Err(CallError::NoToken)
    ));
    assert!(matches!(
        Config::from_env(some(""), some("http://g"), None, None),
        Err(CallError::NoToken)
    ));
    assert!(matches!(
        Config::from_env(None, None, None, None),
        Err(CallError::NoToken)
    ));
    assert!(matches!(
        Config::from_env(some("t"), None, None, None),
        Err(CallError::NoGateway)
    ));
    assert!(matches!(
        Config::from_env(some("t"), some(""), None, None),
        Err(CallError::NoGateway)
    ));
    let c = Config::from_env(some("t"), some("http://g/"), some(""), some("acme")).unwrap();
    assert_eq!(c.gateway_url, "http://g");
    assert_eq!(c.token, "t");
    assert_eq!(c.ext_id, "");
    assert_eq!(c.ws, "acme");
}

#[test]
fn env_names() {
    assert_eq!(WS_ENV, "LB_EXT_WS");
    assert_eq!(ID_ENV, "LB_EXT_ID");
    assert_eq!(TOKEN_ENV, "LB_EXT_TOKEN");
    assert_eq!(GATEWAY_ENV, "LB_GATEWAY_URL");
}

#[test]
fn status_classes() {
    assert_eq!(classify_status(200), StatusClass::Success);
    assert_eq!(classify_status(204), StatusClass::Success);
    assert_eq!(classify_status(299), StatusClass::Success);
    assert_eq!(classify_status(403), StatusClass::Denied);
    assert_eq!(classify_status(401), StatusClass::Failure);
    assert_eq!(classify_status(500), StatusClass::Failure);
    assert_eq!(classify_status(300), StatusClass::Failure);
    assert_eq!(classify_status(199), StatusClass::Failure);
}

#[test]
fn client_carries_its_config() {
    let client = SidecarClient::with_config(Config::new(
        "http://127.0.0.1:8080/".into(),
        "child-jwt-abc".into(),
        "acme".into(),
        "care".into(),
    ));
    assert_eq!(client.ws(), "acme");
    assert_eq!(client.call_url(), "http://127.0.0.1:8080/mcp/call");
    assert_eq!(client.config().token, "child-jwt-abc");
    assert!(matches!(
        SidecarClient::from_env(some("t"), None, None, None),
        Err(CallError::NoGateway)
    ));
    let c = SidecarClient::from_env(some("t"), some("http://g"), None, some("w")).unwrap();
    assert_eq!(c.ws(), "w");
}

#[test]
fn call_error_messages() {
    assert_eq!(
        CallError::Denied.message(),
        "host denied the call (capability/workspace gate)"
    );
    assert_eq!(
        CallError::NoGateway.message(),
        "no callback address: LB_GATEWAY_URL is not set"
    );
    assert_eq!(
        CallError::NoToken.message(),
        "no callback credential: LB_EXT_TOKEN is not set"
    );
    assert_eq!(
        CallError::Http { status: 401, message: "bad token".into() }.message(),
        "host returned HTTP 401: bad token"
    );
    assert_eq!(
        CallError::Transport("refused".into()).message(),
        "transport error reaching the host: refused"
    );
    assert_eq!(
        CallError::Decode("eof".into()).message(),
        "could not decode the host response: eof"
    );
}
