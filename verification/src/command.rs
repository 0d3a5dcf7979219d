//! The `lb-ext` developer CLI: command parsing and dispatch.
//!
//! `new` scaffolds, `build` compiles, `pack` produces a signed artifact, `publish` posts it to a
//! node. Until those steps are backed by the devkit, each command reports the exact action it
//! would take. [`run`] decides, for the arguments after the program name, the line to print or the
//! failure; printing it and choosing the exit code are the program's.

use vstd::prelude::*;

use crate::text::{decimal_chars, is_prefix, owned, push_decimal_str, push_str, starts_with, str_eq};
use crate::world::WORLD_MAJOR;

verus! {

/// The help text.
pub const USAGE: &'static str = "usage: lb-ext <command> [args]

commands:
  new <id> --tier <wasm|native> [--features a,b]   scaffold a fresh extension
  build <path>                                     build an extension folder
  pack <path> [--key <keyfile>]                    produce a signed Artifact
  publish <path> --node <url> [--key <keyfile>]    build + pack + POST to a node

  --world-major                                    print the WIT world major and exit";

/// A CLI failure: a usage error (exit 2, prints the usage) or a runtime failure (exit 1).
#[derive(Debug)]
pub enum CliError {
    Usage(String),
    Failed(String),
}

/// What a command run comes to, as characters: the line printed, or a failure (`true` for a
/// usage error) and its message.
pub type Outcome = Result<Seq<char>, (bool, Seq<char>)>;

/// The outcome of an executable result.
pub open spec fn outcome_of(r: Result<String, CliError>) -> Outcome {
    match r {
        Ok(s) => Ok(s@),
        Err(CliError::Usage(m)) => Err((true, m@)),
        Err(CliError::Failed(m)) => Err((false, m@)),
    }
}

/// A usage error with message `m`.
pub open spec fn usage(m: Seq<char>) -> Outcome {
    Err((true, m))
}

/// The characters of each argument.
pub open spec fn arg_texts(args: Seq<String>) -> Seq<Seq<char>> {
    args.map_values(|a: String| a@)
}

/// The index of the first argument at or after `i` that is neither a flag (`--…`) nor the value
/// that follows a flag.
pub open spec fn positional_from(rest: Seq<Seq<char>>, i: int, skip_next: bool) -> Option<int>
    decreases rest.len() - i,
{
    if i < 0 || i >= rest.len() {
        None
    } else if skip_next {
        positional_from(rest, i + 1, false)
    } else if is_prefix("--"@, rest[i]) {
        positional_from(rest, i + 1, true)
    } else {
        Some(i)
    }
}

/// The first positional argument.
pub open spec fn positional_spec(rest: Seq<Seq<char>>) -> Option<Seq<char>> {
    match positional_from(rest, 0, false) {
        Some(i) => Some(rest[i]),
        None => None,
    }
}

/// The index of the first argument at or after `i` equal to `name`.
pub open spec fn index_of_from(rest: Seq<Seq<char>>, name: Seq<char>, i: int) -> Option<int>
    decreases rest.len() - i,
{
    if i < 0 || i >= rest.len() {
        None
    } else if rest[i] == name {
        Some(i)
    } else {
        index_of_from(rest, name, i + 1)
    }
}

/// The argument that follows the first `name`, if any.
pub open spec fn flag_spec(rest: Seq<Seq<char>>, name: Seq<char>) -> Option<Seq<char>> {
    match index_of_from(rest, name, 0) {
        Some(i) => if i + 1 < rest.len() {
            Some(rest[i + 1])
        } else {
            None
        },
        None => None,
    }
}

/// `new <id> [--tier <wasm|native>]`.
pub open spec fn new_outcome(rest: Seq<Seq<char>>) -> Outcome {
    match positional_spec(rest) {
        None => usage("new: missing <id>"@),
        Some(id) => {
            let tier = match flag_spec(rest, "--tier"@) {
                Some(t) => t,
                None => "wasm"@,
            };
            if tier != "wasm"@ && tier != "native"@ {
                usage("new: --tier must be wasm|native, got "@ + tier)
            } else {
                Ok("would scaffold '"@ + id + "' (tier="@ + tier + ") via lb-devkit templates"@)
            }
        },
    }
}

/// `build <path>`.
pub open spec fn build_outcome(rest: Seq<Seq<char>>) -> Outcome {
    match positional_spec(rest) {
        None => usage("build: missing <path>"@),
        Some(path) => Ok("would build extension at "@ + path),
    }
}

/// `pack <path>`.
pub open spec fn pack_outcome(rest: Seq<Seq<char>>) -> Outcome {
    match positional_spec(rest) {
        None => usage("pack: missing <path>"@),
        Some(path) => Ok("would pack + sign a v2 Artifact from "@ + path),
    }
}

/// `publish <path> --node <url>`: the node must be an `http://` or `https://` URL.
pub open spec fn publish_outcome(rest: Seq<Seq<char>>) -> Outcome {
    match positional_spec(rest) {
        None => usage("publish: missing <path>"@),
        Some(path) => match flag_spec(rest, "--node"@) {
            None => usage("publish: missing --node <url>"@),
            Some(node) => if !is_prefix("http://"@, node) && !is_prefix("https://"@, node) {
                Err((false, "--node must be an http(s) URL, got "@ + node))
            } else {
                Ok("would publish "@ + path + " to "@ + node)
            },
        },
    }
}

/// What running the CLI with `args` (the arguments after the program name) comes to.
pub open spec fn run_outcome(args: Seq<Seq<char>>) -> Outcome {
    if args.len() == 0 {
        usage("no command given"@)
    } else {
        let cmd = args[0];
        let rest = args.drop_first();
        if cmd == "--world-major"@ || cmd == "world-major"@ {
            Ok(decimal_chars(WORLD_MAJOR as nat))
        } else if cmd == "new"@ {
            new_outcome(rest)
        } else if cmd == "build"@ {
            build_outcome(rest)
        } else if cmd == "pack"@ {
            pack_outcome(rest)
        } else if cmd == "publish"@ {
            publish_outcome(rest)
        } else if cmd == "-h"@ || cmd == "--help"@ || cmd == "help"@ {
            Ok(USAGE@)
        } else {
            usage("unknown command: "@ + cmd)
        }
    }
}

/// The positional argument is never a flag.
pub proof fn lemma_positional_not_flag(rest: Seq<Seq<char>>)
    ensures
        positional_spec(rest) matches Some(p) ==> !is_prefix("--"@, p),
{
    lemma_positional_from_not_flag(rest, 0, false);
}

proof fn lemma_positional_from_not_flag(rest: Seq<Seq<char>>, i: int, skip_next: bool)
    ensures
        positional_from(rest, i, skip_next) matches Some(k) ==> 0 <= k < rest.len() && !is_prefix(
            "--"@,
            rest[k],
        ),
    decreases rest.len() - i,
{
    if 0 <= i < rest.len() {
        lemma_positional_from_not_flag(rest, i + 1, false);
        lemma_positional_from_not_flag(rest, i + 1, true);
    }
}

/// The first argument that is not a flag or a flag's value (every `--…` argument is taken to be
/// followed by its value).
pub fn positional(rest: &[String]) -> (r: Option<&str>)
    ensures
        match positional_spec(arg_texts(rest@)) {
            Some(p) => r matches Some(s) && s@ == p,
            None => r is None,
        },
{
    let ghost v = arg_texts(rest@);
    let mut skip_next = false;
    let mut i: usize = 0;
    while i < rest.len()
        invariant
            v == arg_texts(rest@),
            0 <= i <= rest@.len(),
            positional_from(v, 0, false) == positional_from(v, i as int, skip_next),
        decreases rest.len() - i,
    {
        let a = rest[i].as_str();
        assert(v[i as int] == a@);
        if skip_next {
            skip_next = false;
        } else if starts_with(a, "--") {
            skip_next = true;
        } else {
            return Some(a);
        }
        i = i + 1;
    }
    None
}

/// The value following the first `name` in `rest`, if present.
pub fn flag<'a>(rest: &'a [String], name: &str) -> (r: Option<&'a str>)
    ensures
        match flag_spec(arg_texts(rest@), name@) {
            Some(p) => r matches Some(s) && s@ == p,
            None => r is None,
        },
{
    let ghost v = arg_texts(rest@);
    let mut i: usize = 0;
    while i < rest.len()
        invariant
            v == arg_texts(rest@),
            0 <= i <= rest@.len(),
            index_of_from(v, name@, 0) == index_of_from(v, name@, i as int),
        decreases rest.len() - i,
    {
        assert(v[i as int] == rest@[i as int]@);
        if str_eq(rest[i].as_str(), name) {
            if i + 1 < rest.len() {
                assert(v[i + 1] == rest@[i + 1]@);
                return Some(rest[i + 1].as_str());
            } else {
                return None;
            }
        }
        i = i + 1;
    }
    None
}

fn cmd_new(rest: &[String]) -> (r: Result<String, CliError>)
    ensures
        outcome_of(r) == new_outcome(arg_texts(rest@)),
{
    let id = match positional(rest) {
        Some(id) => id,
        None => {
            return Err(CliError::Usage(owned("new: missing <id>")));
        },
    };
    let tier = match flag(rest, "--tier") {
        Some(t) => t,
        None => "wasm",
    };
    if !str_eq(tier, "wasm") && !str_eq(tier, "native") {
        let mut m = owned("new: --tier must be wasm|native, got ");
        push_str(&mut m, tier);
        return Err(CliError::Usage(m));
    }
    let mut out = owned("would scaffold '");
    push_str(&mut out, id);
    push_str(&mut out, "' (tier=");
    push_str(&mut out, tier);
    push_str(&mut out, ") via lb-devkit templates");
    Ok(out)
}

fn cmd_build(rest: &[String]) -> (r: Result<String, CliError>)
    ensures
        outcome_of(r) == build_outcome(arg_texts(rest@)),
{
    let path = match positional(rest) {
        Some(p) => p,
        None => {
            return Err(CliError::Usage(owned("build: missing <path>")));
        },
    };
    let mut out = owned("would build extension at ");
    push_str(&mut out, path);
    Ok(out)
}

fn cmd_pack(rest: &[String]) -> (r: Result<String, CliError>)
    ensures
        outcome_of(r) == pack_outcome(arg_texts(rest@)),
{
    let path = match positional(rest) {
        Some(p) => p,
        None => {
            return Err(CliError::Usage(owned("pack: missing <path>")));
        },
    };
    let mut out = owned("would pack + sign a v2 Artifact from ");
    push_str(&mut out, path);
    Ok(out)
}

fn cmd_publish(rest: &[String]) -> (r: Result<String, CliError>)
    ensures
        outcome_of(r) == publish_outcome(arg_texts(rest@)),
{
    let path = match positional(rest) {
        Some(p) => p,
        None => {
            return Err(CliError::Usage(owned("publish: missing <path>")));
        },
    };
    let node = match flag(rest, "--node") {
        Some(n) => n,
        None => {
            return Err(CliError::Usage(owned("publish: missing --node <url>")));
        },
    };
    if !starts_with(node, "http://") && !starts_with(node, "https://") {
        let mut m = owned("--node must be an http(s) URL, got ");
        push_str(&mut m, node);
        return Err(CliError::Failed(m));
    }
    let mut out = owned("would publish ");
    push_str(&mut out, path);
    push_str(&mut out, " to ");
    push_str(&mut out, node);
    Ok(out)
}

/// Parses `args` (the arguments after the program name) and dispatches. Gives the line the
/// command prints, or its failure.
pub fn run(args: &[String]) -> (r: Result<String, CliError>)
    ensures
        outcome_of(r) == run_outcome(arg_texts(args@)),
{
    if args.len() == 0 {
        return Err(CliError::Usage(owned("no command given")));
    }
    let (head, rest) = args.split_at(1);
    assert(arg_texts(rest@) == arg_texts(args@).drop_first());
    let cmd = head[0].as_str();
    assert(cmd@ == arg_texts(args@)[0]);
    if str_eq(cmd, "--world-major") || str_eq(cmd, "world-major") {
        let mut out = String::new();
        push_decimal_str(&mut out, WORLD_MAJOR);
        assert(out@ =~= decimal_chars(WORLD_MAJOR as nat));
        Ok(out)
    } else if str_eq(cmd, "new") {
        cmd_new(rest)
    } else if str_eq(cmd, "build") {
        cmd_build(rest)
    } else if str_eq(cmd, "pack") {
        cmd_pack(rest)
    } else if str_eq(cmd, "publish") {
        cmd_publish(rest)
    } else if str_eq(cmd, "-h") || str_eq(cmd, "--help") || str_eq(cmd, "help") {
        Ok(owned(USAGE))
    } else {
        let mut m = owned("unknown command: ");
        push_str(&mut m, cmd);
        Err(CliError::Usage(m))
    }
}

/* ---------- laws of the command line ---------- */

/// The command words, flags and tier names, spelled out.
proof fn lemma_command_words()
    ensures
        "--world-major"@ == seq!['-', '-', 'w', 'o', 'r', 'l', 'd', '-', 'm', 'a', 'j', 'o', 'r'],
        "world-major"@ == seq!['w', 'o', 'r', 'l', 'd', '-', 'm', 'a', 'j', 'o', 'r'],
        "new"@ == seq!['n', 'e', 'w'],
        "build"@ == seq!['b', 'u', 'i', 'l', 'd'],
        "pack"@ == seq!['p', 'a', 'c', 'k'],
        "publish"@ == seq!['p', 'u', 'b', 'l', 'i', 's', 'h'],
        "-h"@ == seq!['-', 'h'],
        "--help"@ == seq!['-', '-', 'h', 'e', 'l', 'p'],
        "help"@ == seq!['h', 'e', 'l', 'p'],
        "--tier"@ == seq!['-', '-', 't', 'i', 'e', 'r'],
        "--node"@ == seq!['-', '-', 'n', 'o', 'd', 'e'],
        "wasm"@ == seq!['w', 'a', 's', 'm'],
        "native"@ == seq!['n', 'a', 't', 'i', 'v', 'e'],
        "--"@ == seq!['-', '-'],
{
    reveal_strlit("--world-major");
    reveal_strlit("world-major");
    reveal_strlit("new");
    reveal_strlit("build");
    reveal_strlit("pack");
    reveal_strlit("publish");
    reveal_strlit("-h");
    reveal_strlit("--help");
    reveal_strlit("help");
    reveal_strlit("--tier");
    reveal_strlit("--node");
    reveal_strlit("wasm");
    reveal_strlit("native");
    reveal_strlit("--");
    assert("--world-major"@ =~= seq!['-', '-', 'w', 'o', 'r', 'l', 'd', '-', 'm', 'a', 'j', 'o', 'r']);
    assert("world-major"@ =~= seq!['w', 'o', 'r', 'l', 'd', '-', 'm', 'a', 'j', 'o', 'r']);
    assert("new"@ =~= seq!['n', 'e', 'w']);
    assert("build"@ =~= seq!['b', 'u', 'i', 'l', 'd']);
    assert("pack"@ =~= seq!['p', 'a', 'c', 'k']);
    assert("publish"@ =~= seq!['p', 'u', 'b', 'l', 'i', 's', 'h']);
    assert("-h"@ =~= seq!['-', 'h']);
    assert("--help"@ =~= seq!['-', '-', 'h', 'e', 'l', 'p']);
    assert("help"@ =~= seq!['h', 'e', 'l', 'p']);
    assert("--tier"@ =~= seq!['-', '-', 't', 'i', 'e', 'r']);
    assert("--node"@ =~= seq!['-', '-', 'n', 'o', 'd', 'e']);
    assert("wasm"@ =~= seq!['w', 'a', 's', 'm']);
    assert("native"@ =~= seq!['n', 'a', 't', 'i', 'v', 'e']);
    assert("--"@ =~= seq!['-', '-']);
}

/// The outcome of a command that prints `line`.
pub open spec fn printed(line: Seq<char>) -> Outcome {
    Ok(line)
}

/// `publish <path> --node <url>` succeeds exactly when the node is an `http://` or `https://`
/// URL, and then reports the path and the node; otherwise it fails (not a usage error) naming the
/// node. This holds wherever the path and the `--node` flag stand among the arguments.
pub proof fn law_publish(rest: Seq<Seq<char>>, path: Seq<char>, node: Seq<char>)
    requires
        positional_spec(rest) == Some(path),
        flag_spec(rest, "--node"@) == Some(node),
    ensures
        (is_prefix("http://"@, node) || is_prefix("https://"@, node)) ==> run_outcome(
            seq!["publish"@] + rest,
        ) == printed("would publish "@ + path + " to "@ + node),
        !(is_prefix("http://"@, node) || is_prefix("https://"@, node)) ==> run_outcome(
            seq!["publish"@] + rest,
        ) == Err::<Seq<char>, (bool, Seq<char>)>(
            (false, "--node must be an http(s) URL, got "@ + node),
        ),
{
    lemma_command_words();
    assert((seq!["publish"@] + rest)[0] == "publish"@);
    assert((seq!["publish"@] + rest).drop_first() =~= rest);
}

/// The plain form `publish <path> --node <url>`, for every path that is not a flag and every node.
pub proof fn law_publish_plain(path: Seq<char>, node: Seq<char>)
    requires
        !is_prefix("--"@, path),
    ensures
        (is_prefix("http://"@, node) || is_prefix("https://"@, node)) ==> run_outcome(
            seq!["publish"@, path, "--node"@, node],
        ) == printed("would publish "@ + path + " to "@ + node),
        !(is_prefix("http://"@, node) || is_prefix("https://"@, node)) ==> run_outcome(
            seq!["publish"@, path, "--node"@, node],
        ) == Err::<Seq<char>, (bool, Seq<char>)>(
            (false, "--node must be an http(s) URL, got "@ + node),
        ),
{
    lemma_command_words();
    let rest = seq![path, "--node"@, node];
    assert(seq!["publish"@, path, "--node"@, node] =~= seq!["publish"@] + rest);
    assert(is_prefix("--"@, "--node"@)) by {
        assert("--node"@.subrange(0, 2) =~= "--"@);
    }
    assert(path != "--node"@);
    assert(positional_from(rest, 0, false) == Some(0int));
    assert(index_of_from(rest, "--node"@, 1) == Some(1int));
    assert(index_of_from(rest, "--node"@, 0) == Some(1int));
    law_publish(rest, path, node);
}

/// `-h`, `--help` and `help` print the usage text, whatever follows them.
pub proof fn law_help(rest: Seq<Seq<char>>)
    ensures
        run_outcome(seq!["-h"@] + rest) == printed(USAGE@),
        run_outcome(seq!["--help"@] + rest) == printed(USAGE@),
        run_outcome(seq!["help"@] + rest) == printed(USAGE@),
{
    lemma_command_words();
    assert((seq!["-h"@] + rest)[0] == "-h"@);
    assert((seq!["--help"@] + rest)[0] == "--help"@);
    assert((seq!["help"@] + rest)[0] == "help"@);
}

/// The documented commands.
pub open spec fn is_command(cmd: Seq<char>) -> bool {
    ||| cmd == "--world-major"@
    ||| cmd == "world-major"@
    ||| cmd == "new"@
    ||| cmd == "build"@
    ||| cmd == "pack"@
    ||| cmd == "publish"@
    ||| cmd == "-h"@
    ||| cmd == "--help"@
    ||| cmd == "help"@
}

/// "Unknown command" is the answer exactly for a first argument outside the documented commands.
pub proof fn law_unknown_command(cmd: Seq<char>, rest: Seq<Seq<char>>)
    ensures
        run_outcome(seq![cmd] + rest) == usage("unknown command: "@ + cmd) <==> !is_command(cmd),
{
    lemma_command_words();
    reveal_strlit("unknown command: ");
    reveal_strlit("new: missing <id>");
    reveal_strlit("new: --tier must be wasm|native, got ");
    reveal_strlit("build: missing <path>");
    reveal_strlit("pack: missing <path>");
    reveal_strlit("publish: missing <path>");
    reveal_strlit("publish: missing --node <url>");
    let args = seq![cmd] + rest;
    assert(args[0] == cmd);
    assert(args.drop_first() =~= rest);
    let u = "unknown command: "@ + cmd;
    if cmd == "new"@ {
        assert(u.len() == 20);
        match new_outcome(rest) {
            Ok(_) => {},
            Err((b, m)) => {
                assert(m.len() != 20);
            },
        }
    } else if cmd == "build"@ {
        assert(u.len() == 22);
    } else if cmd == "pack"@ {
        assert(u.len() == 21);
    } else if cmd == "publish"@ {
        assert(u.len() == 24);
        match publish_outcome(rest) {
            Ok(_) => {},
            Err((b, m)) => {
                assert(b ==> m.len() != 24);
            },
        }
    }
}

/// `new <id>` scaffolds a `wasm` extension by default; with `--tier <t>` it scaffolds tier `t`
/// when `t` is `wasm` or `native` and is a usage error naming `t` exactly when it is neither.
/// This holds wherever the id and the flag stand among the arguments.
pub proof fn law_new(rest: Seq<Seq<char>>, id: Seq<char>)
    requires
        positional_spec(rest) == Some(id),
    ensures
        flag_spec(rest, "--tier"@) is None ==> run_outcome(seq!["new"@] + rest) == printed(
            "would scaffold '"@ + id + "' (tier="@ + "wasm"@ + ") via lb-devkit templates"@,
        ),
        forall|t: Seq<char>|
            flag_spec(rest, "--tier"@) == Some(t) ==> {
                &&& (t == "wasm"@ || t == "native"@) ==> run_outcome(seq!["new"@] + rest)
                    == printed(
                    "would scaffold '"@ + id + "' (tier="@ + t + ") via lb-devkit templates"@,
                )
                &&& !(t == "wasm"@ || t == "native"@) ==> run_outcome(seq!["new"@] + rest)
                    == usage("new: --tier must be wasm|native, got "@ + t)
            },
{
    lemma_command_words();
    assert((seq!["new"@] + rest)[0] == "new"@);
    assert((seq!["new"@] + rest).drop_first() =~= rest);
}

/// The plain forms `new <id>` and `new <id> --tier <t>`, for every id that is not a flag and
/// every tier.
pub proof fn law_new_plain(id: Seq<char>, t: Seq<char>)
    requires
        !is_prefix("--"@, id),
    ensures
        run_outcome(seq!["new"@, id]) == printed(
            "would scaffold '"@ + id + "' (tier="@ + "wasm"@ + ") via lb-devkit templates"@,
        ),
        (t == "wasm"@ || t == "native"@) ==> run_outcome(seq!["new"@, id, "--tier"@, t])
            == printed("would scaffold '"@ + id + "' (tier="@ + t + ") via lb-devkit templates"@),
        !(t == "wasm"@ || t == "native"@) ==> run_outcome(seq!["new"@, id, "--tier"@, t])
            == usage("new: --tier must be wasm|native, got "@ + t),
{
    lemma_command_words();
    let r1 = seq![id];
    assert(seq!["new"@, id] =~= seq!["new"@] + r1);
    assert(positional_from(r1, 0, false) == Some(0int));
    assert(index_of_from(r1, "--tier"@, 1) is None);
    assert(is_prefix("--"@, "--tier"@)) by {
        assert("--tier"@.subrange(0, 2) =~= "--"@);
    }
    assert(id != "--tier"@);
    assert(index_of_from(r1, "--tier"@, 0) is None);
    law_new(r1, id);
    let r2 = seq![id, "--tier"@, t];
    assert(seq!["new"@, id, "--tier"@, t] =~= seq!["new"@] + r2);
    assert(positional_from(r2, 0, false) == Some(0int));
    assert(index_of_from(r2, "--tier"@, 1) == Some(1int));
    assert(index_of_from(r2, "--tier"@, 0) == Some(1int));
    law_new(r2, id);
}

/// `pack` reports the first positional argument as the artifact's source, wherever the flags
/// stand: a flag's value is never taken for the path.
pub proof fn law_pack(rest: Seq<Seq<char>>, path: Seq<char>)
    requires
        positional_spec(rest) == Some(path),
    ensures
        run_outcome(seq!["pack"@] + rest) == printed("would pack + sign a v2 Artifact from "@ + path),
{
    lemma_command_words();
    assert((seq!["pack"@] + rest)[0] == "pack"@);
    assert((seq!["pack"@] + rest).drop_first() =~= rest);
}

/// The forms `pack <path> <flag> <value>` and `pack <flag> <value> <path>`: the path is reported,
/// never the flag's value, whatever that value is.
pub proof fn law_pack_plain(path: Seq<char>, flag: Seq<char>, value: Seq<char>)
    requires
        !is_prefix("--"@, path),
        is_prefix("--"@, flag),
    ensures
        run_outcome(seq!["pack"@, path, flag, value]) == printed(
            "would pack + sign a v2 Artifact from "@ + path,
        ),
        run_outcome(seq!["pack"@, flag, value, path]) == printed(
            "would pack + sign a v2 Artifact from "@ + path,
        ),
{
    lemma_command_words();
    let r1 = seq![path, flag, value];
    assert(seq!["pack"@, path, flag, value] =~= seq!["pack"@] + r1);
    assert(positional_from(r1, 0, false) == Some(0int));
    law_pack(r1, path);
    let r2 = seq![flag, value, path];
    assert(seq!["pack"@, flag, value, path] =~= seq!["pack"@] + r2);
    assert(positional_from(r2, 2, false) == Some(2int));
    assert(positional_from(r2, 1, true) == Some(2int));
    assert(positional_from(r2, 0, false) == Some(2int));
    law_pack(r2, path);
}

} // verus!
