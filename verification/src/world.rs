//! The WIT world every WASM extension targets, and the major-version gate the loader applies.
//!
//! The loader refuses a component whose declared world major differs from [`WORLD_MAJOR`].
//! Compatibility is major equality: minor and patch additions are backward safe.

use vstd::prelude::*;

use crate::text::{chars_of, find_char, first_index_from, last_index_below, parse_uint, parse_uint_range, rfind_char};

verus! {

/// The versioned WIT world every extension targets.
pub const WORLD: &'static str = "lazybones:ext/extension@0.2.0";

/// The bare world name (no version): what a guest passes as `world:` to its bindings generator.
pub const WORLD_NAME: &'static str = "extension";

/// Major version of the world. Bumping it breaks every extension: a deliberate, rare act.
pub const WORLD_MAJOR: u64 = 0;

/// The major of a `name@MAJOR.MINOR.PATCH` world string: the text after the last `@`, up to its
/// first `.`, read as an unsigned 64-bit integer. `None` when there is no `@` or that text is not
/// such an integer.
pub open spec fn world_major(w: Seq<char>) -> Option<u64> {
    match last_index_below(w, '@', 0, w.len() as int) {
        None => None,
        Some(at) => {
            let end = match first_index_from(w, '.', at + 1, w.len() as int) {
                Some(dot) => dot,
                None => w.len() as int,
            };
            match parse_uint(w.subrange(at + 1, end), u64::MAX as nat) {
                Ok(n) => Some(n as u64),
                Err(_) => None,
            }
        },
    }
}

/// Extracts the major from a `name@MAJOR.MINOR.PATCH` world string; `None` if unparseable.
pub fn parse_major(world: &str) -> (r: Option<u64>)
    ensures
        r == world_major(world@),
{
    let w = chars_of(world);
    let at = match rfind_char(w.as_slice(), '@', 0, w.len()) {
        Some(at) => at,
        None => {
            return None;
        },
    };
    let end = match find_char(w.as_slice(), '.', at + 1, w.len()) {
        Some(dot) => dot,
        None => w.len(),
    };
    match parse_uint_range(w.as_slice(), at + 1, end, u64::MAX) {
        Ok(n) => Some(n),
        Err(_) => None,
    }
}

/// Whether a manifest-declared `world` string is compatible with this host's WIT major.
pub fn world_major_matches(declared: &str) -> (r: bool)
    ensures
        r == (world_major(declared@) == Some(WORLD_MAJOR)),
{
    match parse_major(declared) {
        Some(m) => m == WORLD_MAJOR,
        None => false,
    }
}

/// This host's own world passes its own gate.
pub proof fn lemma_own_world_matches()
    ensures
        world_major(WORLD@) == Some(WORLD_MAJOR),
{
    reveal_strlit("lazybones:ext/extension@0.2.0");
    let name = WORLD@.subrange(0, 23);
    let major = seq!['0'];
    let rest = seq!['2', '.', '0'];
    assert(WORLD@ =~= name + seq!['@'] + major + seq!['.'] + rest);
    reveal_with_fuel(first_index_from, 4);
    assert(first_index_from(major, '.', 0, 1) is None);
    assert(first_index_from(major, '@', 0, 1) is None);
    assert(first_index_from(rest, '@', 0, 3) is None);
    lemma_world_major_split(name, major, rest);
    assert(major.drop_last() =~= Seq::<char>::empty());
    assert(crate::text::digits_value(major.drop_last(), u64::MAX as nat) == Ok::<
        nat,
        crate::text::IntErrorKind,
    >(0));
    assert(crate::text::is_digit(major.last()));
    assert(crate::text::digit_value(major.last()) == 0);
    assert(crate::text::digits_value(major, u64::MAX as nat) == Ok::<
        nat,
        crate::text::IntErrorKind,
    >(0));
    assert(parse_uint(major, u64::MAX as nat) == Ok::<nat, crate::text::IntErrorKind>(0));
}

/// Minor and patch never matter: two world strings whose text after the last `@` agrees up to the
/// first `.` get the same verdict.
pub proof fn lemma_only_major_matters(name1: Seq<char>, name2: Seq<char>, major: Seq<char>, rest1: Seq<char>, rest2: Seq<char>)
    requires
        first_index_from(major, '.', 0, major.len() as int) is None,
        first_index_from(major, '@', 0, major.len() as int) is None,
        first_index_from(rest1, '@', 0, rest1.len() as int) is None,
        first_index_from(rest2, '@', 0, rest2.len() as int) is None,
    ensures
        world_major(name1 + seq!['@'] + major + seq!['.'] + rest1) == world_major(
            name2 + seq!['@'] + major + seq!['.'] + rest2,
        ),
{
    lemma_world_major_split(name1, major, rest1);
    lemma_world_major_split(name2, major, rest2);
}

/// The major of `name@major.rest` is `major` read as a number, when `major` holds no `.` or `@`
/// and `rest` holds no `@`.
pub proof fn lemma_world_major_split(name: Seq<char>, major: Seq<char>, rest: Seq<char>)
    requires
        first_index_from(major, '.', 0, major.len() as int) is None,
        first_index_from(major, '@', 0, major.len() as int) is None,
        first_index_from(rest, '@', 0, rest.len() as int) is None,
    ensures
        world_major(name + seq!['@'] + major + seq!['.'] + rest) == match parse_uint(major, u64::MAX as nat) {
            Ok(n) => Some(n as u64),
            Err(_) => None::<u64>,
        },
{
    let w = name + seq!['@'] + major + seq!['.'] + rest;
    let at = name.len() as int;
    let dot = at + 1 + major.len();
    lemma_no_index_means_absent(major, '.', 0, major.len() as int);
    lemma_no_index_means_absent(major, '@', 0, major.len() as int);
    lemma_no_index_means_absent(rest, '@', 0, rest.len() as int);
    assert forall|j: int| at < j < w.len() implies w[j] != '@' by {
        if j <= at + major.len() {
            assert(w[j] == major[j - at - 1]);
        } else if j > dot {
            assert(w[j] == rest[j - dot - 1]);
        }
    }
    assert(w[at] == '@');
    lemma_last_index_is(w, '@', 0, at, w.len() as int);
    assert forall|j: int| at + 1 <= j < dot implies w[j] != '.' by {
        assert(w[j] == major[j - at - 1]);
    }
    assert(w[dot] == '.');
    crate::text::lemma_first_index_is(w, '.', at + 1, dot, w.len() as int);
    assert(w.subrange(at + 1, dot) =~= major);
}

proof fn lemma_no_index_means_absent(s: Seq<char>, c: char, lo: int, hi: int)
    requires
        first_index_from(s, c, lo, hi) is None,
    ensures
        forall|j: int| lo <= j < hi ==> s[j] != c,
    decreases hi - lo,
{
    if lo < hi {
        lemma_no_index_means_absent(s, c, lo + 1, hi);
    }
}

proof fn lemma_last_index_is(s: Seq<char>, c: char, lo: int, m: int, hi: int)
    requires
        lo <= m < hi,
        s[m] == c,
        forall|j: int| m < j < hi ==> s[j] != c,
    ensures
        last_index_below(s, c, lo, hi) == Some(m),
    decreases hi - m,
{
    if m + 1 < hi {
        lemma_last_index_is(s, c, lo, m, hi - 1);
    }
}

} // verus!
