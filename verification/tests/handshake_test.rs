use lb_ext_sdk::handshake::{InitReply, PROTOCOL_MAJOR};

#[test]
fn init_stamps_current_major() {
    assert_eq!(InitReply::new(vec![]).protocol_major, PROTOCOL_MAJOR);
}

#[test]
fn compatible_only_on_equal_major() {
    let init = InitReply::new(vec![]);
    assert!(init.compatible_with(PROTOCOL_MAJOR));
    assert!(!init.compatible_with(PROTOCOL_MAJOR + 1));
}

#[test]
fn init_keeps_the_tool_list() {
    let res = InitReply::new(vec!["series.read".into(), "ingest.write".into()]);
    assert_eq!(res.tools, vec!["series.read".to_string(), "ingest.write".to_string()]);
    assert_eq!(res.protocol_major, 0);
}
