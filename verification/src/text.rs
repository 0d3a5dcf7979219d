//! Character-level helpers shared by the wire parsers: Unicode whitespace trimming, ASCII
//! case-insensitive comparison, unsigned decimal parsing with `str::parse`'s error kinds, and
//! decimal formatting.

use vstd::prelude::*;

verus! {

/* ---------- strings and characters ---------- */

/// The characters of `s`, in order.
pub fn chars_of(s: &str) -> (v: Vec<char>)
    ensures
        v@ == s@,
{
    let mut v: Vec<char> = Vec::new();
    for c in it: s.chars()
        invariant
            v@ == it.seq().take(it.index() as int),
    {
        v.push(c);
    }
    v
}

/// `String::push`: appends one character.
#[verifier::external_body]
fn push_char(s: &mut String, c: char)
    ensures
        final(s)@ == old(s)@.push(c),
{
    s.push(c);
}

/// Appends the characters of `t` to `s`.
pub fn push_str(s: &mut String, t: &str)
    ensures
        final(s)@ == old(s)@ + t@,
{
    s.append(t);
}

/// A `String` holding the characters `cs[lo..hi]`.
pub fn string_of_range(cs: &[char], lo: usize, hi: usize) -> (s: String)
    requires
        lo <= hi <= cs@.len(),
    ensures
        s@ == cs@.subrange(lo as int, hi as int),
{
    let mut s = String::new();
    let mut i = lo;
    while i < hi
        invariant
            lo <= i <= hi <= cs@.len(),
            s@ == cs@.subrange(lo as int, i as int),
        decreases hi - i,
    {
        push_char(&mut s, cs[i]);
        assert(cs@.subrange(lo as int, i + 1) == cs@.subrange(lo as int, i as int).push(
            cs@[i as int],
        ));
        i = i + 1;
    }
    s
}

/// An owned copy of `s`.
pub fn owned(s: &str) -> (r: String)
    ensures
        r@ == s@,
{
    s.to_owned()
}

/// Whether two character slices are equal.
pub fn chars_eq(a: &[char], b: &[char]) -> (r: bool)
    ensures
        r == (a@ == b@),
{
    if a.len() != b.len() {
        return false;
    }
    let mut i: usize = 0;
    while i < a.len()
        invariant
            a@.len() == b@.len(),
            0 <= i <= a@.len(),
            forall|j: int| 0 <= j < i ==> a@[j] == b@[j],
        decreases a.len() - i,
    {
        if a[i] != b[i] {
            return false;
        }
        i = i + 1;
    }
    assert(a@ =~= b@);
    true
}

/// Whether two strings hold the same characters.
pub fn str_eq(a: &str, b: &str) -> (r: bool)
    ensures
        r == (a@ == b@),
{
    let x = chars_of(a);
    let y = chars_of(b);
    chars_eq(x.as_slice(), y.as_slice())
}

/// `p` is a prefix of `s`.
pub open spec fn is_prefix(p: Seq<char>, s: Seq<char>) -> bool {
    p.len() <= s.len() && s.subrange(0, p.len() as int) == p
}

/// Whether `s` starts with `p` (`str::starts_with` with a string pattern).
pub fn starts_with(s: &str, p: &str) -> (r: bool)
    ensures
        r == is_prefix(p@, s@),
{
    let x = chars_of(s);
    let y = chars_of(p);
    if y.len() > x.len() {
        return false;
    }
    let mut i: usize = 0;
    while i < y.len()
        invariant
            x@ == s@,
            y@ == p@,
            y@.len() <= x@.len(),
            0 <= i <= y@.len(),
            forall|j: int| 0 <= j < i ==> x@[j] == y@[j],
        decreases y.len() - i,
    {
        if x[i] != y[i] {
            assert(x@.subrange(0, y@.len() as int)[i as int] != y@[i as int]);
            assert(x@.subrange(0, y@.len() as int) != y@);
            return false;
        }
        i = i + 1;
    }
    assert(x@.subrange(0, y@.len() as int) =~= y@);
    true
}

/* ---------- searching ---------- */

/// The first index `i` in `lo..hi` with `s[i] == c`.
pub open spec fn first_index_from(s: Seq<char>, c: char, lo: int, hi: int) -> Option<int>
    decreases hi - lo,
{
    if lo >= hi {
        None
    } else if s[lo] == c {
        Some(lo)
    } else {
        first_index_from(s, c, lo + 1, hi)
    }
}

/// The first index of `c` in `s`.
pub open spec fn first_index(s: Seq<char>, c: char) -> Option<int> {
    first_index_from(s, c, 0, s.len() as int)
}

/// The last index `i` in `lo..hi` with `s[i] == c`.
pub open spec fn last_index_below(s: Seq<char>, c: char, lo: int, hi: int) -> Option<int>
    decreases hi - lo,
{
    if lo >= hi {
        None
    } else if s[hi - 1] == c {
        Some(hi - 1)
    } else {
        last_index_below(s, c, lo, hi - 1)
    }
}

/// The last index of `c` in `s`.
pub open spec fn last_index(s: Seq<char>, c: char) -> Option<int> {
    last_index_below(s, c, 0, s.len() as int)
}

proof fn lemma_first_index_from_bounds(s: Seq<char>, c: char, lo: int, hi: int)
    ensures
        first_index_from(s, c, lo, hi) matches Some(i) ==> lo <= i < hi && s[i] == c,
    decreases hi - lo,
{
    if lo < hi && s[lo] != c {
        lemma_first_index_from_bounds(s, c, lo + 1, hi);
    }
}

/// The first index of `c` in `s[lo..hi]` is `m` when `s[m] == c` and no earlier index holds it.
pub proof fn lemma_first_index_is(s: Seq<char>, c: char, lo: int, m: int, hi: int)
    requires
        lo <= m < hi,
        s[m] == c,
        forall|j: int| lo <= j < m ==> s[j] != c,
    ensures
        first_index_from(s, c, lo, hi) == Some(m),
    decreases m - lo,
{
    if lo < m {
        lemma_first_index_is(s, c, lo + 1, m, hi);
    }
}

/// Searches `s[lo..hi]` for `c`, returning the first index that holds it.
pub fn find_char(s: &[char], c: char, lo: usize, hi: usize) -> (r: Option<usize>)
    requires
        lo <= hi <= s@.len(),
    ensures
        r matches Some(i) ==> first_index_from(s@, c, lo as int, hi as int) == Some(i as int),
        r is None ==> first_index_from(s@, c, lo as int, hi as int) is None,
        r matches Some(i) ==> lo <= i < hi && s@[i as int] == c,
{
    proof {
        lemma_first_index_from_bounds(s@, c, lo as int, hi as int);
    }
    let mut i = lo;
    while i < hi
        invariant
            lo <= i <= hi <= s@.len(),
            first_index_from(s@, c, lo as int, hi as int) == first_index_from(
                s@,
                c,
                i as int,
                hi as int,
            ),
        decreases hi - i,
    {
        if s[i] == c {
            return Some(i);
        }
        i = i + 1;
    }
    None
}

proof fn lemma_last_index_below_bounds(s: Seq<char>, c: char, lo: int, hi: int)
    ensures
        last_index_below(s, c, lo, hi) matches Some(i) ==> lo <= i < hi && s[i] == c,
    decreases hi - lo,
{
    if lo < hi && s[hi - 1] != c {
        lemma_last_index_below_bounds(s, c, lo, hi - 1);
    }
}

/// Searches `s[lo..hi]` for `c`, returning the last index that holds it.
pub fn rfind_char(s: &[char], c: char, lo: usize, hi: usize) -> (r: Option<usize>)
    requires
        lo <= hi <= s@.len(),
    ensures
        r matches Some(i) ==> last_index_below(s@, c, lo as int, hi as int) == Some(i as int),
        r is None ==> last_index_below(s@, c, lo as int, hi as int) is None,
        r matches Some(i) ==> lo <= i < hi && s@[i as int] == c,
{
    proof {
        lemma_last_index_below_bounds(s@, c, lo as int, hi as int);
    }
    let mut j = hi;
    while j > lo
        invariant
            lo <= j <= hi <= s@.len(),
            last_index_below(s@, c, lo as int, hi as int) == last_index_below(
                s@,
                c,
                lo as int,
                j as int,
            ),
        decreases j - lo,
    {
        if s[j - 1] == c {
            return Some(j - 1);
        }
        j = j - 1;
    }
    None
}

/* ---------- whitespace ---------- */

/// Unicode `White_Space` (what `char::is_whitespace` and `str::trim` use).
pub open spec fn is_whitespace(c: char) -> bool {
    ||| ('\t' <= c && c <= '\r')
    ||| c == ' '
    ||| c == '\u{85}'
    ||| c == '\u{A0}'
    ||| c == '\u{1680}'
    ||| ('\u{2000}' <= c && c <= '\u{200A}')
    ||| c == '\u{2028}'
    ||| c == '\u{2029}'
    ||| c == '\u{202F}'
    ||| c == '\u{205F}'
    ||| c == '\u{3000}'
}

/// Whether `c` is Unicode whitespace.
pub fn is_whitespace_char(c: char) -> (r: bool)
    ensures
        r == is_whitespace(c),
{
    ('\t' <= c && c <= '\r') || c == ' ' || c == '\u{85}' || c == '\u{A0}' || c == '\u{1680}' || (
    '\u{2000}' <= c && c <= '\u{200A}') || c == '\u{2028}' || c == '\u{2029}' || c == '\u{202F}'
        || c == '\u{205F}' || c == '\u{3000}'
}

/// `s` without its leading whitespace.
pub open spec fn trim_start(s: Seq<char>) -> Seq<char>
    decreases s.len(),
{
    if s.len() > 0 && is_whitespace(s[0]) {
        trim_start(s.drop_first())
    } else {
        s
    }
}

/// `s` without its trailing whitespace.
pub open spec fn trim_end(s: Seq<char>) -> Seq<char>
    decreases s.len(),
{
    if s.len() > 0 && is_whitespace(s.last()) {
        trim_end(s.drop_last())
    } else {
        s
    }
}

/// `s` without leading and trailing whitespace (`str::trim`).
pub open spec fn trim(s: Seq<char>) -> Seq<char> {
    trim_end(trim_start(s))
}

/// The bounds of `trim(s[lo..hi])` inside `s`.
pub fn trim_bounds(s: &[char], lo: usize, hi: usize) -> (r: (usize, usize))
    requires
        lo <= hi <= s@.len(),
    ensures
        lo <= r.0 <= r.1 <= hi,
        s@.subrange(r.0 as int, r.1 as int) == trim(s@.subrange(lo as int, hi as int)),
{
    let mut i = lo;
    while i < hi && is_whitespace_char(s[i])
        invariant
            lo <= i <= hi <= s@.len(),
            trim_start(s@.subrange(lo as int, hi as int)) == trim_start(
                s@.subrange(i as int, hi as int),
            ),
        decreases hi - i,
    {
        assert(s@.subrange(i as int, hi as int).drop_first() == s@.subrange(i + 1, hi as int));
        i = i + 1;
    }
    assert(trim_start(s@.subrange(i as int, hi as int)) == s@.subrange(i as int, hi as int));
    let mut j = hi;
    while j > i && is_whitespace_char(s[j - 1])
        invariant
            lo <= i <= j <= hi <= s@.len(),
            trim(s@.subrange(lo as int, hi as int)) == trim_end(s@.subrange(i as int, j as int)),
        decreases j - i,
    {
        assert(s@.subrange(i as int, j as int).drop_last() == s@.subrange(i as int, j - 1));
        j = j - 1;
    }
    (i, j)
}

/* ---------- ASCII case folding ---------- */

/// The code of `c` with an ASCII upper-case letter folded to lower case.
pub open spec fn ascii_lower(c: char) -> u32 {
    if 'A' <= c && c <= 'Z' {
        (c as u32 + 32) as u32
    } else {
        c as u32
    }
}

/// `str::eq_ignore_ascii_case`.
pub open spec fn eq_ignore_ascii_case(a: Seq<char>, b: Seq<char>) -> bool {
    a.len() == b.len() && forall|i: int| 0 <= i < a.len() ==> ascii_lower(a[i]) == ascii_lower(b[i])
}

fn ascii_lower_code(c: char) -> (r: u32)
    ensures
        r == ascii_lower(c),
{
    if 'A' <= c && c <= 'Z' {
        (c as u32) + 32
    } else {
        c as u32
    }
}

/// Whether `s[lo..hi]` equals `t`, ignoring ASCII case.
pub fn range_eq_ignore_ascii_case(s: &[char], lo: usize, hi: usize, t: &[char]) -> (r: bool)
    requires
        lo <= hi <= s@.len(),
    ensures
        r == eq_ignore_ascii_case(s@.subrange(lo as int, hi as int), t@),
{
    if hi - lo != t.len() {
        return false;
    }
    let mut k: usize = 0;
    while k < t.len()
        invariant
            hi - lo == t@.len(),
            lo <= hi <= s@.len(),
            0 <= k <= t@.len(),
            forall|j: int| 0 <= j < k ==> ascii_lower(s@[lo + j]) == ascii_lower(t@[j]),
        decreases t.len() - k,
    {
        if ascii_lower_code(s[lo + k]) != ascii_lower_code(t[k]) {
            assert(s@.subrange(lo as int, hi as int)[k as int] == s@[lo + k]);
            return false;
        }
        k = k + 1;
    }
    assert forall|j: int| 0 <= j < t@.len() implies ascii_lower(
        s@.subrange(lo as int, hi as int)[j],
    ) == ascii_lower(t@[j]) by {
        assert(s@.subrange(lo as int, hi as int)[j] == s@[lo + j]);
    }
    true
}

/* ---------- unsigned decimal parsing ---------- */

/// Why `str::parse` refused an unsigned integer (the kinds of `core::num::ParseIntError`).
#[derive(Debug, Clone, Copy, PartialEq, Eq)]
pub enum IntErrorKind {
    /// The text was empty.
    Empty,
    /// A character other than an ASCII digit (after an optional leading `+`).
    InvalidDigit,
    /// The value does not fit the target type.
    PosOverflow,
}

impl IntErrorKind {
    /// The message `ParseIntError` displays for this kind.
    pub fn message(&self) -> (m: &'static str)
        ensures
            m@ == self.spec_message(),
    {
        match self {
            IntErrorKind::Empty => "cannot parse integer from empty string",
            IntErrorKind::InvalidDigit => "invalid digit found in string",
            IntErrorKind::PosOverflow => "number too large to fit in target type",
        }
    }

    pub open spec fn spec_message(&self) -> Seq<char> {
        match self {
            IntErrorKind::Empty => "cannot parse integer from empty string"@,
            IntErrorKind::InvalidDigit => "invalid digit found in string"@,
            IntErrorKind::PosOverflow => "number too large to fit in target type"@,
        }
    }
}

/// `c` is an ASCII decimal digit.
pub open spec fn is_digit(c: char) -> bool {
    '0' <= c && c <= '9'
}

/// The value of the ASCII digit `c`.
pub open spec fn digit_value(c: char) -> nat {
    (c as u32 - 48) as nat
}

/// The value of the digit string `d`, read left to right, failing at the first non-digit or at the
/// first digit that takes the value above `max`.
pub open spec fn digits_value(d: Seq<char>, max: nat) -> Result<nat, IntErrorKind>
    decreases d.len(),
{
    if d.len() == 0 {
        Ok(0)
    } else {
        match digits_value(d.drop_last(), max) {
            Err(e) => Err(e),
            Ok(v) => if !is_digit(d.last()) {
                Err(IntErrorKind::InvalidDigit)
            } else if v * 10 + digit_value(d.last()) > max {
                Err(IntErrorKind::PosOverflow)
            } else {
                Ok(v * 10 + digit_value(d.last()))
            },
        }
    }
}

/// `str::parse` for an unsigned integer type whose largest value is `max`: an optional leading
/// `+`, then one or more ASCII digits.
pub open spec fn parse_uint(s: Seq<char>, max: nat) -> Result<nat, IntErrorKind> {
    if s.len() == 0 {
        Err(IntErrorKind::Empty)
    } else if s[0] == '+' || s[0] == '-' {
        if s.len() == 1 {
            Err(IntErrorKind::InvalidDigit)
        } else if s[0] == '+' {
            digits_value(s.drop_first(), max)
        } else {
            digits_value(s, max)
        }
    } else {
        digits_value(s, max)
    }
}

proof fn lemma_digits_value_bound(d: Seq<char>, max: nat)
    ensures
        digits_value(d, max) matches Ok(v) ==> v <= max,
    decreases d.len(),
{
    if d.len() > 0 {
        lemma_digits_value_bound(d.drop_last(), max);
    }
}

proof fn lemma_digits_err_extends(s: Seq<char>, lo: int, i: int, hi: int, max: nat)
    requires
        0 <= lo <= i <= hi <= s.len(),
        digits_value(s.subrange(lo, i), max) is Err,
    ensures
        digits_value(s.subrange(lo, hi), max) == digits_value(s.subrange(lo, i), max),
    decreases hi - i,
{
    if i < hi {
        lemma_digits_err_extends(s, lo, i, hi - 1, max);
        assert(s.subrange(lo, hi).drop_last() == s.subrange(lo, hi - 1));
    }
}

fn digits_from(s: &[char], lo: usize, hi: usize, max: u64) -> (r: Result<u64, IntErrorKind>)
    requires
        lo <= hi <= s@.len(),
    ensures
        match r {
            Ok(n) => digits_value(s@.subrange(lo as int, hi as int), max as nat) == Ok::<
                nat,
                IntErrorKind,
            >(n as nat),
            Err(e) => digits_value(s@.subrange(lo as int, hi as int), max as nat) == Err::<
                nat,
                IntErrorKind,
            >(e),
        },
{
    let mut acc: u64 = 0;
    let mut i = lo;
    assert(s@.subrange(lo as int, lo as int) =~= Seq::<char>::empty());
    while i < hi
        invariant
            lo <= i <= hi <= s@.len(),
            acc <= max,
            digits_value(s@.subrange(lo as int, i as int), max as nat) == Ok::<nat, IntErrorKind>(
                acc as nat,
            ),
        decreases hi - i,
    {
        let c = s[i];
        let ghost d = s@.subrange(lo as int, i + 1);
        assert(d.drop_last() == s@.subrange(lo as int, i as int));
        assert(d.last() == c);
        if !('0' <= c && c <= '9') {
            proof {
                lemma_digits_err_extends(s@, lo as int, i + 1, hi as int, max as nat);
            }
            return Err(IntErrorKind::InvalidDigit);
        }
        let dig = (c as u32 - 48) as u64;
        let m = acc.checked_mul(10);
        match m {
            None => {
                assert(acc * 10 > u64::MAX);
                proof {
                    lemma_digits_err_extends(s@, lo as int, i + 1, hi as int, max as nat);
                }
                return Err(IntErrorKind::PosOverflow);
            },
            Some(m) => {
                let t = m.checked_add(dig);
                match t {
                    None => {
                        proof {
                            lemma_digits_err_extends(s@, lo as int, i + 1, hi as int, max as nat);
                        }
                        return Err(IntErrorKind::PosOverflow);
                    },
                    Some(t) => {
                        if t > max {
                            proof {
                                lemma_digits_err_extends(
                                    s@,
                                    lo as int,
                                    i + 1,
                                    hi as int,
                                    max as nat,
                                );
                            }
                            return Err(IntErrorKind::PosOverflow);
                        }
                        acc = t;
                    },
                }
            },
        }
        i = i + 1;
    }
    Ok(acc)
}

/// `s[lo..hi].parse()` into an unsigned type whose largest value is `max`.
pub fn parse_uint_range(s: &[char], lo: usize, hi: usize, max: u64) -> (r: Result<
    u64,
    IntErrorKind,
>)
    requires
        lo <= hi <= s@.len(),
    ensures
        match r {
            Ok(n) => parse_uint(s@.subrange(lo as int, hi as int), max as nat) == Ok::<
                nat,
                IntErrorKind,
            >(n as nat) && n <= max,
            Err(e) => parse_uint(s@.subrange(lo as int, hi as int), max as nat) == Err::<
                nat,
                IntErrorKind,
            >(e),
        },
{
    let ghost t = s@.subrange(lo as int, hi as int);
    if lo == hi {
        return Err(IntErrorKind::Empty);
    }
    assert(t[0] == s@[lo as int]);
    if s[lo] == '+' {
        if hi - lo == 1 {
            return Err(IntErrorKind::InvalidDigit);
        }
        assert(t.drop_first() == s@.subrange(lo + 1, hi as int));
        proof {
            lemma_digits_value_bound(t.drop_first(), max as nat);
        }
        digits_from(s, lo + 1, hi, max)
    } else {
        proof {
            lemma_digits_value_bound(t, max as nat);
            if t[0] == '-' && t.len() == 1 {
                assert(t.drop_last() =~= Seq::<char>::empty());
                assert(digits_value(t.drop_last(), max as nat) == Ok::<nat, IntErrorKind>(0));
                assert(t.last() == '-');
                assert(digits_value(t, max as nat) == Err::<nat, IntErrorKind>(
                    IntErrorKind::InvalidDigit,
                ));
            }
        }
        digits_from(s, lo, hi, max)
    }
}

/* ---------- decimal formatting ---------- */

/// The ASCII decimal digits of `n`, most significant first.
pub open spec fn decimal(n: nat) -> Seq<u8>
    decreases n,
{
    if n < 10 {
        seq![(48 + n) as u8]
    } else {
        decimal(n / 10).push((48 + n % 10) as u8)
    }
}

/// The decimal digits of `n` as characters.
pub open spec fn decimal_chars(n: nat) -> Seq<char> {
    decimal(n).map_values(|b: u8| b as char)
}

/// Appends the decimal digits of `n` to `out`.
pub fn push_decimal(n: u64, out: &mut Vec<u8>)
    ensures
        final(out)@ == old(out)@ + decimal(n as nat),
    decreases n,
{
    if n >= 10 {
        push_decimal(n / 10, out);
    }
    out.push(48 + (n % 10) as u8);
    assert(decimal(n as nat) == if n < 10 {
        seq![(48 + n) as u8]
    } else {
        decimal((n / 10) as nat).push((48 + n % 10) as u8)
    });
}

/// Every byte of `decimal(n)` is an ASCII digit, and there are at most 20 of them when `n` fits
/// 64 bits.
pub proof fn lemma_decimal_digits(n: nat)
    ensures
        forall|i: int| 0 <= i < decimal(n).len() ==> 48 <= #[trigger] decimal(n)[i] <= 57,
        decimal(n).len() >= 1,
    decreases n,
{
    if n >= 10 {
        lemma_decimal_digits(n / 10);
        let p = decimal(n / 10);
        assert forall|i: int| 0 <= i < decimal(n).len() implies 48 <= #[trigger] decimal(n)[i]
            <= 57 by {
            if i < p.len() {
                assert(decimal(n)[i] == p[i]);
            }
        }
    }
}

/// `10^k`.
pub open spec fn pow10(k: nat) -> nat
    decreases k,
{
    if k == 0 {
        1
    } else {
        10 * pow10((k - 1) as nat)
    }
}

/// A number below `10^k` has at most `k` decimal digits.
pub proof fn lemma_decimal_len(n: nat, k: nat)
    requires
        k >= 1,
        n < pow10(k),
    ensures
        decimal(n).len() <= k,
    decreases n,
{
    if n >= 10 {
        let p = pow10((k - 1) as nat);
        assert(n / 10 < p) by (nonlinear_arith)
            requires
                n < 10 * p,
        ;
        if k == 1 {
            assert(pow10(1) == 10 * pow10(0));
        } else {
            lemma_decimal_len(n / 10, (k - 1) as nat);
        }
    }
}

/// A 64-bit number has at most 20 decimal digits.
pub proof fn lemma_decimal_len_u64(n: nat)
    requires
        n <= u64::MAX,
    ensures
        decimal(n).len() <= 20,
{
    reveal_with_fuel(pow10, 21);
    assert(pow10(20) == 100000000000000000000);
    lemma_decimal_len(n, 20);
}

/// Reading the decimal digits of `n` back gives `n`.
pub proof fn lemma_decimal_parses(n: nat, max: nat)
    requires
        n <= max,
    ensures
        digits_value(decimal_chars(n), max) == Ok::<nat, IntErrorKind>(n),
    decreases n,
{
    let d = decimal_chars(n);
    if n < 10 {
        let b = (48 + n) as u8;
        assert(decimal(n) == seq![b]);
        assert(d =~= seq![b as char]);
        assert(d.drop_last() =~= Seq::<char>::empty());
        assert(is_digit(b as char));
        assert(digit_value(b as char) == n);
        assert(digits_value(d.drop_last(), max) == Ok::<nat, IntErrorKind>(0));
        assert(d.last() == b as char);
    } else {
        lemma_decimal_parses(n / 10, max);
        let b = (48 + n % 10) as u8;
        assert(decimal(n) == decimal(n / 10).push(b));
        assert(d =~= decimal_chars(n / 10).push(b as char));
        assert(d.drop_last() =~= decimal_chars(n / 10));
        assert(is_digit(b as char));
        assert(digit_value(b as char) == n % 10);
        assert((n / 10) * 10 + n % 10 == n);
        assert(d.last() == b as char);
        assert(digits_value(d.drop_last(), max) == Ok::<nat, IntErrorKind>(n / 10));
    }
}

/// Appends the decimal digits of `n` to `s`.
pub fn push_decimal_str(s: &mut String, n: u64)
    ensures
        final(s)@ == old(s)@ + decimal_chars(n as nat),
{
    let mut digits: Vec<u8> = Vec::new();
    push_decimal(n, &mut digits);
    assert(digits@ == decimal(n as nat));
    let mut i: usize = 0;
    while i < digits.len()
        invariant
            digits@ == decimal(n as nat),
            0 <= i <= digits@.len(),
            s@ == old(s)@ + decimal_chars(n as nat).take(i as int),
        decreases digits.len() - i,
    {
        let b = digits[i];
        push_char(s, b as char);
        assert(decimal_chars(n as nat).take(i + 1) == decimal_chars(n as nat).take(i as int).push(
            b as char,
        ));
        i = i + 1;
    }
    assert(decimal_chars(n as nat).take(digits@.len() as int) == decimal_chars(n as nat));
}

} // verus!
