use lb_ext_sdk::world::{parse_major, world_major_matches, WORLD, WORLD_MAJOR, WORLD_NAME};

#[test]
fn matches_same_major() {
    assert!(world_major_matches("lazybones:ext/extension@0.1.0"));
    assert!(world_major_matches("lazybones:ext/extension@0.2.0"));
    assert!(world_major_matches("lazybones:ext/extension@0.9.4"));
}

#[test]
fn rejects_different_major() {
    assert!(!world_major_matches("lazybones:ext/extension@1.0.0"));
}

#[test]
fn rejects_unparseable() {
    assert!(!world_major_matches("nonsense"));
}

#[test]
fn own_world_is_compatible() {
    assert!(world_major_matches(WORLD));
    assert_eq!(WORLD_MAJOR, 0);
    assert_eq!(WORLD_NAME, "extension");
}

#[test]
fn major_is_read_after_the_last_at() {
    assert_eq!(parse_major("a@b@3.1.2"), Some(3));
    assert_eq!(parse_major("x@12"), Some(12));
    assert_eq!(parse_major("x@+7.0"), Some(7));
    assert_eq!(parse_major("x@.1"), None);
    assert_eq!(parse_major("x@a.1"), None);
    assert_eq!(parse_major("x@18446744073709551616.0"), None);
    assert_eq!(parse_major("x@18446744073709551615.0"), Some(u64::MAX));
}
