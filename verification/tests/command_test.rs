use lb_ext_sdk::command::{flag, positional, run, CliError, USAGE};

fn s(v: &[&str]) -> Vec<String> {
    v.iter().map(|x| x.to_string()).collect()
}

#[test]
fn no_command_is_usage_error() {
    assert!(matches!(run(&[]), Err(CliError::Usage(_))));
}

#[test]
fn unknown_command_is_usage_error() {
    assert!(matches!(run(&s(&["frobnicate"])), Err(CliError::Usage(_))));
}

#[test]
fn world_major_prints_and_succeeds() {
    assert!(run(&s(&["--world-major"])).is_ok());
}

#[test]
fn new_requires_id() {
    assert!(matches!(run(&s(&["new"])), Err(CliError::Usage(_))));
}

#[test]
fn new_rejects_bad_tier() {
    assert!(matches!(
        run(&s(&["new", "x", "--tier", "bogus"])),
        Err(CliError::Usage(_))
    ));
}

#[test]
fn new_accepts_valid_tier() {
    assert!(run(&s(&["new", "cooler", "--tier", "native"])).is_ok());
}

#[test]
fn publish_requires_node() {
    assert!(matches!(
        run(&s(&["publish", "./ext"])),
        Err(CliError::Usage(_))
    ));
}

#[test]
fn publish_rejects_non_http_node() {
    assert!(matches!(
        run(&s(&["publish", "./ext", "--node", "ftp://x"])),
        Err(CliError::Failed(_))
    ));
}

#[test]
fn positional_skips_flags() {
    assert_eq!(
        positional(&s(&["--tier", "wasm", "cooler"])),
        Some("cooler")
    );
}

fn printed(args: &[&str]) -> String {
    match run(&s(args)) {
        Ok(line) => line,
        Err(CliError::Usage(m)) | Err(CliError::Failed(m)) => panic!("unexpected failure: {m}"),
    }
}

fn usage_message(args: &[&str]) -> String {
    match run(&s(args)) {
        Err(CliError::Usage(m)) => m,
        _ => panic!("expected a usage error"),
    }
}

#[test]
fn commands_print_what_they_would_do() {
    assert_eq!(printed(&["--world-major"]), "0");
    assert_eq!(printed(&["world-major"]), "0");
    assert_eq!(
        printed(&["new", "cooler"]),
        "would scaffold 'cooler' (tier=wasm) via lb-devkit templates"
    );
    assert_eq!(
        printed(&["new", "--tier", "native", "cooler"]),
        "would scaffold 'cooler' (tier=native) via lb-devkit templates"
    );
    assert_eq!(printed(&["build", "./ext"]), "would build extension at ./ext");
    assert_eq!(
        printed(&["pack", "--key", "k.pem", "./ext"]),
        "would pack + sign a v2 Artifact from ./ext"
    );
    assert_eq!(
        printed(&["publish", "./ext", "--node", "https://n:1"]),
        "would publish ./ext to https://n:1"
    );
    assert_eq!(printed(&["help"]), USAGE);
    assert_eq!(printed(&["-h"]), USAGE);
    assert!(USAGE.starts_with("usage: lb-ext <command> [args]\n"));
}

#[test]
fn usage_messages_name_the_problem() {
    assert_eq!(usage_message(&[]), "no command given");
    assert_eq!(usage_message(&["frobnicate"]), "unknown command: frobnicate");
    assert_eq!(usage_message(&["new"]), "new: missing <id>");
    assert_eq!(
        usage_message(&["new", "x", "--tier", "bogus"]),
        "new: --tier must be wasm|native, got bogus"
    );
    assert_eq!(usage_message(&["build"]), "build: missing <path>");
    assert_eq!(usage_message(&["pack", "--key", "k"]), "pack: missing <path>");
    assert_eq!(usage_message(&["publish", "./ext"]), "publish: missing --node <url>");
    assert_eq!(usage_message(&["publish"]), "publish: missing <path>");
    match run(&s(&["publish", "p", "--node", "ftp://x"])) {
        Err(CliError::Failed(m)) => assert_eq!(m, "--node must be an http(s) URL, got ftp://x"),
        _ => panic!("expected a runtime failure"),
    }
}

#[test]
fn flag_takes_the_value_after_the_first_occurrence() {
    assert_eq!(flag(&s(&["--tier", "a", "--tier", "b"]), "--tier"), Some("a"));
    assert_eq!(flag(&s(&["x", "--tier"]), "--tier"), None);
    assert_eq!(flag(&s(&["x"]), "--tier"), None);
    assert_eq!(positional(&s(&["--a", "--b", "c", "d"])), Some("c"));
    assert_eq!(positional(&s(&["--a", "b"])), None);
}
