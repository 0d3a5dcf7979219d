use lb_ext_sdk::wire::Reply;

#[test]
fn reply_ok_and_err_are_exclusive() {
    let ok = Reply::ok(1, "[]".to_string());
    assert!(ok.result.is_some() && ok.error.is_none());
    let err = Reply::err(1, "boom".to_string());
    assert!(err.result.is_none() && err.error.as_deref() == Some("boom"));
}

#[test]
fn reply_keeps_its_id() {
    assert_eq!(Reply::ok(7, "1".into()).id, 7);
    assert_eq!(Reply::err(9, "x".into()).id, 9);
}
