//! `Content-Length` framing of the child's stdio.
//!
//! One frame is `Content-Length: N\r\n\r\n` followed by exactly N bytes of JSON: the LSP / JSON-RPC
//! framing the host's supervisor speaks. A frame above [`MAX_FRAME`] is refused, so a malformed
//! host cannot make the child allocate unbounded memory.
//!
//! The byte-level work lives here: building a frame ([`frame_header`], [`encode_frame`]), reading a
//! header one byte at a time ([`HeaderScanner`]), parsing the `Content-Length` field
//! ([`parse_content_length`]), bounding the body ([`check_frame_len`]), and reading a whole frame
//! out of bytes already at hand ([`decode_frame`]). Reading and writing the actual streams is the
//! caller's.

use vstd::prelude::*;
use vstd::utf8::*;

use crate::text::{
    chars_of, decimal, decimal_chars, eq_ignore_ascii_case, is_whitespace, lemma_decimal_digits,
    lemma_decimal_len_u64, lemma_decimal_parses, lemma_first_index_is, trim_end, trim_start, find_char, first_index_from, owned,
    parse_uint, parse_uint_range, push_decimal, push_decimal_str, push_str, range_eq_ignore_ascii_case,
    trim, trim_bounds, IntErrorKind,
};

verus! {

/// The largest single frame this side will read (16 MiB).
pub const MAX_FRAME: usize = 16 * 1024 * 1024;

/// A header that reaches this many bytes without its terminating blank line is refused.
pub const MAX_HEADER: usize = 8192;

/// Why reading a frame failed.
#[derive(Debug, Clone, Copy, PartialEq, Eq)]
pub enum FrameError {
    /// The stream ended before a header was complete (the host went away).
    Closed,
    /// The header grew past [`MAX_HEADER`] bytes without its terminating blank line.
    HeaderTooLong,
    /// The header is not valid UTF-8: the length of its valid prefix, and the length of the
    /// invalid sequence that follows (`None` when the header ends inside a sequence).
    HeaderNotUtf8 { valid_up_to: usize, error_len: Option<u8> },
    /// No `Content-Length` line in the header.
    MissingContentLength,
    /// The `Content-Length` value is not an unsigned integer that fits `usize`.
    BadContentLength(IntErrorKind),
    /// The announced body is larger than [`MAX_FRAME`].
    TooLarge(usize),
    /// The stream ended inside the body.
    Truncated,
}

impl FrameError {
    /// The text of the I/O error this failure is reported as.
    pub fn message(&self) -> (m: String)
        ensures
            m@ == self.spec_message(),
    {
        match self {
            FrameError::Closed => owned("host closed stream"),
            FrameError::HeaderTooLong => owned("header too long"),
            FrameError::HeaderNotUtf8 { valid_up_to, error_len } => {
                let mut m = owned("header not utf8: ");
                match error_len {
                    Some(n) => {
                        push_str(&mut m, "invalid utf-8 sequence of ");
                        push_decimal_str(&mut m, *n as u64);
                        push_str(&mut m, " bytes from index ");
                        push_decimal_str(&mut m, *valid_up_to as u64);
                    },
                    None => {
                        push_str(&mut m, "incomplete utf-8 byte sequence from index ");
                        push_decimal_str(&mut m, *valid_up_to as u64);
                    },
                }
                m
            },
            FrameError::MissingContentLength => owned("missing Content-Length header"),
            FrameError::BadContentLength(kind) => {
                let mut m = owned("bad content-length: ");
                push_str(&mut m, kind.message());
                m
            },
            FrameError::TooLarge(len) => {
                let mut m = owned("frame too large: ");
                push_decimal_str(&mut m, *len as u64);
                push_str(&mut m, " > ");
                push_decimal_str(&mut m, MAX_FRAME as u64);
                m
            },
            FrameError::Truncated => owned("early eof"),
        }
    }

    pub open spec fn spec_message(&self) -> Seq<char> {
        match self {
            FrameError::Closed => "host closed stream"@,
            FrameError::HeaderTooLong => "header too long"@,
            FrameError::HeaderNotUtf8 { valid_up_to, error_len } => "header not utf8: "@ + match error_len {
                Some(n) => "invalid utf-8 sequence of "@ + decimal_chars(n as nat)
                    + " bytes from index "@ + decimal_chars(valid_up_to as nat),
                None => "incomplete utf-8 byte sequence from index "@ + decimal_chars(
                    valid_up_to as nat,
                ),
            },
            FrameError::MissingContentLength => "missing Content-Length header"@,
            FrameError::BadContentLength(kind) => "bad content-length: "@ + kind.spec_message(),
            FrameError::TooLarge(len) => "frame too large: "@ + decimal_chars(len as nat) + " > "@
                + decimal_chars(MAX_FRAME as nat),
            FrameError::Truncated => "early eof"@,
        }
    }
}

/* ---------- the header's text ---------- */

/// `Content-Length: ` as bytes.
pub open spec fn header_prefix() -> Seq<u8> {
    seq![67u8, 111, 110, 116, 101, 110, 116, 45, 76, 101, 110, 103, 116, 104, 58, 32]
}

/// The blank line that ends a header: `\r\n\r\n`.
pub open spec fn terminator() -> Seq<u8> {
    seq![13u8, 10, 13, 10]
}

/// The field name the header parser looks for, compared ignoring ASCII case.
pub open spec fn length_field_name() -> Seq<char> {
    seq!['c', 'o', 'n', 't', 'e', 'n', 't', '-', 'l', 'e', 'n', 'g', 't', 'h']
}

/// The header written in front of a body of `len` bytes.
pub open spec fn frame_header_spec(len: nat) -> Seq<u8> {
    header_prefix() + decimal(len) + terminator()
}

/// The frame that carries `payload`.
pub open spec fn frame_bytes(payload: Seq<u8>) -> Seq<u8> {
    frame_header_spec(payload.len()) + payload
}

/// `h` ends with the blank line that ends a header.
pub open spec fn terminated(h: Seq<u8>) -> bool {
    h.len() >= 4 && h.subrange(h.len() - 4, h.len() as int) == terminator()
}

/// A CR LF pair starts at `i` in `t`.
pub open spec fn crlf_at(t: Seq<char>, i: int) -> bool {
    0 <= i && i + 1 < t.len() && t[i] == '\r' && t[i + 1] == '\n'
}

/// The first CR LF pair in `t` at or after `i`.
pub open spec fn first_crlf_from(t: Seq<char>, i: int) -> Option<int>
    decreases t.len() - i,
{
    if i < 0 || i + 1 >= t.len() {
        None
    } else if crlf_at(t, i) {
        Some(i)
    } else {
        first_crlf_from(t, i + 1)
    }
}

pub proof fn lemma_first_crlf_from_bounds(t: Seq<char>, i: int)
    ensures
        first_crlf_from(t, i) matches Some(e) ==> i <= e && crlf_at(t, e),
    decreases t.len() - i,
{
    if !(i < 0 || i + 1 >= t.len()) && !crlf_at(t, i) {
        lemma_first_crlf_from_bounds(t, i + 1);
    }
}

/// Where the line starting at `pos` ends: at the next CR LF, or at the end of the text.
pub open spec fn line_end(t: Seq<char>, pos: int) -> int {
    match first_crlf_from(t, pos) {
        Some(e) => e,
        None => t.len() as int,
    }
}

/// The value part of the line `t[lo..hi]` when that line is `name:value` and its trimmed name is
/// `content-length`, ignoring ASCII case.
pub open spec fn length_field_value(t: Seq<char>, lo: int, hi: int) -> Option<Seq<char>> {
    match first_index_from(t, ':', lo, hi) {
        Some(c) => if eq_ignore_ascii_case(trim(t.subrange(lo, c)), length_field_name()) {
            Some(t.subrange(c + 1, hi))
        } else {
            None
        },
        None => None,
    }
}

/// The value of the first `Content-Length` line at or after `pos`, lines being split at each
/// CR LF.
pub open spec fn length_value_from(t: Seq<char>, pos: int) -> Option<Seq<char>>
    decreases t.len() - pos,
{
    if pos < 0 || pos > t.len() {
        None
    } else {
        match length_field_value(t, pos, line_end(t, pos)) {
            Some(v) => Some(v),
            None => match first_crlf_from(t, pos) {
                Some(e) => {
                    proof {
                        lemma_first_crlf_from_bounds(t, pos);
                    }
                    length_value_from(t, e + 2)
                },
                None => None,
            },
        }
    }
}

/// What `parse_content_length` gives for the header bytes `h`.
pub open spec fn content_length(h: Seq<u8>) -> Result<usize, FrameError> {
    if !valid_utf8(h) {
        Err(FrameError::HeaderNotUtf8 { valid_up_to: utf8_error(h).0, error_len: utf8_error(h).1 })
    } else {
        match length_value_from(decode_utf8(h), 0) {
            None => Err(FrameError::MissingContentLength),
            Some(v) => match parse_uint(trim(v), usize::MAX as nat) {
                Ok(n) => Ok(n as usize),
                Err(k) => Err(FrameError::BadContentLength(k)),
            },
        }
    }
}

/* ---------- reading a frame from a byte stream ---------- */

/// Reading a header one byte at a time from a stream that yields `s`, after `k` bytes that did not
/// finish it: the header's length, or why there is none.
pub open spec fn scan_from(s: Seq<u8>, k: nat) -> Result<nat, FrameError>
    decreases s.len() - k,
{
    if k >= s.len() {
        Err(FrameError::Closed)
    } else if terminated(s.take(k + 1 as int)) {
        Ok(k + 1)
    } else if k + 1 > MAX_HEADER {
        Err(FrameError::HeaderTooLong)
    } else {
        scan_from(s, k + 1)
    }
}

/// Reading one frame from a stream that yields `s`: the body and the number of bytes the frame
/// took, or why it failed.
pub open spec fn read_frame_spec(s: Seq<u8>) -> Result<(Seq<u8>, nat), FrameError> {
    match scan_from(s, 0) {
        Err(e) => Err(e),
        Ok(h) => match content_length(s.take(h as int)) {
            Err(e) => Err(e),
            Ok(len) => if len > MAX_FRAME {
                Err(FrameError::TooLarge(len))
            } else if h + len > s.len() {
                Err(FrameError::Truncated)
            } else {
                Ok((s.subrange(h as int, h + len), (h + len) as nat))
            },
        },
    }
}

/* ---------- exec ---------- */

/// What `std::str::from_utf8` reports of ill-formed `bytes`: its `Utf8Error`'s `valid_up_to` and
/// `error_len`.
pub uninterp spec fn utf8_error(bytes: Seq<u8>) -> (usize, Option<u8>);

/// `std::str::from_utf8`: the text of `bytes` when they are valid UTF-8, else the error's
/// `valid_up_to` and `error_len`.
///
/// Claimed of the std function: it returns `Ok` exactly when the bytes are well-formed UTF-8, and
/// the string it returns holds those bytes; on failure the error's two fields depend on the bytes
/// alone (named [`utf8_error`], not spelled out here).
#[verifier::external_body]
fn utf8_text(bytes: &[u8]) -> (r: Result<&str, (usize, Option<u8>)>)
    ensures
        r is Ok <==> valid_utf8(bytes@),
        r matches Ok(t) ==> t@ == decode_utf8(bytes@),
        r matches Err(e) ==> e == utf8_error(bytes@),
{
    std::str::from_utf8(bytes).map_err(|e| (e.valid_up_to(), e.error_len().map(|n| n as u8)))
}

fn find_crlf(t: &[char], pos: usize) -> (r: Option<usize>)
    requires
        pos <= t@.len(),
    ensures
        r matches Some(e) ==> first_crlf_from(t@, pos as int) == Some(e as int),
        r is None ==> first_crlf_from(t@, pos as int) is None,
{
    let mut i = pos;
    while t.len() - i >= 2
        invariant
            pos <= i <= t@.len(),
            first_crlf_from(t@, pos as int) == first_crlf_from(t@, i as int),
        decreases t.len() - i,
    {
        if t[i] == '\r' && t[i + 1] == '\n' {
            return Some(i);
        }
        i = i + 1;
    }
    None
}

/// Parses `Content-Length: N` (the field name compared ignoring ASCII case, name and value
/// trimmed of whitespace) out of a header block. The first line whose name matches decides.
pub fn parse_content_length(header: &[u8]) -> (r: Result<usize, FrameError>)
    ensures
        r == content_length(header@),
{
    let text = match utf8_text(header) {
        Ok(t) => t,
        Err((valid_up_to, error_len)) => {
            return Err(FrameError::HeaderNotUtf8 { valid_up_to, error_len });
        },
    };
    let t = chars_of(text);
    let ghost tt = t@;
    assert(tt == decode_utf8(header@));
    let name: [char; 14] = ['c', 'o', 'n', 't', 'e', 'n', 't', '-', 'l', 'e', 'n', 'g', 't', 'h'];
    assert(name@ == length_field_name());
    let mut pos: usize = 0;
    loop
        invariant
            t@ == tt,
            valid_utf8(header@),
            tt == decode_utf8(header@),
            name@ == length_field_name(),
            pos <= tt.len(),
            length_value_from(tt, 0) == length_value_from(tt, pos as int),
        decreases tt.len() - pos,
    {
        let end = find_crlf(t.as_slice(), pos);
        proof {
            lemma_first_crlf_from_bounds(tt, pos as int);
        }
        let lend = match end {
            Some(e) => e,
            None => t.len(),
        };
        assert(lend as int == line_end(tt, pos as int));
        match find_char(t.as_slice(), ':', pos, lend) {
            Some(c) => {
                let (a, b) = trim_bounds(t.as_slice(), pos, c);
                if range_eq_ignore_ascii_case(t.as_slice(), a, b, name.as_slice()) {
                    let (va, vb) = trim_bounds(t.as_slice(), c + 1, lend);
                    return match parse_uint_range(t.as_slice(), va, vb, usize::MAX as u64) {
                        Ok(n) => Ok(n as usize),
                        Err(k) => Err(FrameError::BadContentLength(k)),
                    };
                }
            },
            None => {},
        }
        match end {
            Some(e) => {
                pos = e + 2;
            },
            None => {
                return Err(FrameError::MissingContentLength);
            },
        }
    }
}

/// Refuses a body above [`MAX_FRAME`].
pub fn check_frame_len(len: usize) -> (r: Result<usize, FrameError>)
    ensures
        len > MAX_FRAME ==> r == Err::<usize, FrameError>(FrameError::TooLarge(len)),
        len <= MAX_FRAME ==> r == Ok::<usize, FrameError>(len),
{
    if len > MAX_FRAME {
        Err(FrameError::TooLarge(len))
    } else {
        Ok(len)
    }
}

/// What one more header byte did.
#[derive(Debug, Clone, Copy, PartialEq, Eq)]
pub enum ScanStep {
    /// The header is not complete yet: read another byte.
    NeedMore,
    /// The header is complete (its `Content-Length`, or why it has none), or it grew too long.
    Done(Result<usize, FrameError>),
}

/// Reads a frame header one byte at a time, so a partial read cannot desynchronise the stream.
pub struct HeaderScanner {
    header: Vec<u8>,
}

impl View for HeaderScanner {
    type V = Seq<u8>;

    closed spec fn view(&self) -> Seq<u8> {
        self.header@
    }
}

impl HeaderScanner {
    /// A scanner that has seen no byte.
    pub fn new() -> (s: Self)
        ensures
            s@ == Seq::<u8>::empty(),
    {
        HeaderScanner { header: Vec::new() }
    }

    /// Takes the next byte of the stream. The header is complete once it ends with `\r\n\r\n`; a
    /// header that reaches `MAX_HEADER + 1` bytes without that is refused.
    pub fn push(&mut self, byte: u8) -> (r: ScanStep)
        ensures
            final(self)@ == old(self)@.push(byte),
            terminated(final(self)@) ==> r == ScanStep::Done(content_length(final(self)@)),
            !terminated(final(self)@) && final(self)@.len() > MAX_HEADER ==> r == ScanStep::Done(
                Err(FrameError::HeaderTooLong),
            ),
            !terminated(final(self)@) && final(self)@.len() <= MAX_HEADER ==> r
                == ScanStep::NeedMore,
    {
        self.header.push(byte);
        let n = self.header.len();
        if n >= 4 && self.header[n - 4] == 13 && self.header[n - 3] == 10 && self.header[n - 2]
            == 13 && self.header[n - 1] == 10 {
            assert(self.header@.subrange(n - 4, n as int) =~= terminator());
            ScanStep::Done(parse_content_length(self.header.as_slice()))
        } else {
            assert(n >= 4 ==> self.header@.subrange(n - 4, n as int)[0] == self.header@[n - 4]);
            assert(n >= 4 ==> self.header@.subrange(n - 4, n as int)[3] == self.header@[n - 1]);
            assert(n >= 4 ==> self.header@.subrange(n - 4, n as int)[1] == self.header@[n - 3]);
            assert(n >= 4 ==> self.header@.subrange(n - 4, n as int)[2] == self.header@[n - 2]);
            if n > MAX_HEADER {
                ScanStep::Done(Err(FrameError::HeaderTooLong))
            } else {
                ScanStep::NeedMore
            }
        }
    }
}

/// The header that announces a body of `len` bytes: `Content-Length: len\r\n\r\n`.
pub fn frame_header(len: usize) -> (h: Vec<u8>)
    ensures
        h@ == frame_header_spec(len as nat),
{
    let mut h: Vec<u8> = vec![67u8, 111, 110, 116, 101, 110, 116, 45, 76, 101, 110, 103, 116, 104, 58, 32];
    assert(h@ == header_prefix());
    push_decimal(len as u64, &mut h);
    h.push(13);
    h.push(10);
    h.push(13);
    h.push(10);
    assert(h@ =~= frame_header_spec(len as nat));
    h
}

/// `payload` as one frame: its header followed by its bytes.
pub fn encode_frame(payload: &[u8]) -> (f: Vec<u8>)
    ensures
        f@ == frame_bytes(payload@),
{
    let mut f = frame_header(payload.len());
    let mut i: usize = 0;
    while i < payload.len()
        invariant
            0 <= i <= payload@.len(),
            f@ == frame_header_spec(payload@.len()) + payload@.take(i as int),
        decreases payload.len() - i,
    {
        f.push(payload[i]);
        assert(payload@.take(i + 1) == payload@.take(i as int).push(payload@[i as int]));
        i = i + 1;
    }
    assert(payload@.take(payload@.len() as int) == payload@);
    f
}

/// Reads one frame out of `buf`, the bytes a stream will yield, exactly as a reader of that stream
/// would: the header one byte at a time, then the body. Gives the body and the number of bytes the
/// frame took.
pub fn decode_frame(buf: &[u8]) -> (r: Result<(Vec<u8>, usize), FrameError>)
    ensures
        match r {
            Ok((body, used)) => read_frame_spec(buf@) == Ok::<(Seq<u8>, nat), FrameError>(
                (body@, used as nat),
            ),
            Err(e) => read_frame_spec(buf@) == Err::<(Seq<u8>, nat), FrameError>(e),
        },
{
    let mut scanner = HeaderScanner::new();
    let mut k: usize = 0;
    let mut len: usize = 0;
    loop
        invariant_except_break
            k <= buf@.len(),
            scanner@ == buf@.take(k as int),
            scan_from(buf@, 0) == scan_from(buf@, k as nat),
            k <= MAX_HEADER,
        ensures
            k <= buf@.len(),
            scan_from(buf@, 0) == Ok::<nat, FrameError>(k as nat),
            content_length(buf@.take(k as int)) == Ok::<usize, FrameError>(len),
        decreases buf@.len() - k,
    {
        if k >= buf.len() {
            return Err(FrameError::Closed);
        }
        assert(buf@.take(k as int).push(buf@[k as int]) == buf@.take(k + 1));
        match scanner.push(buf[k]) {
            ScanStep::NeedMore => {
                k = k + 1;
            },
            ScanStep::Done(Ok(l)) => {
                k = k + 1;
                len = l;
                break;
            },
            ScanStep::Done(Err(e)) => {
                return Err(e);
            },
        }
    }
    let len = match check_frame_len(len) {
        Ok(l) => l,
        Err(e) => {
            return Err(e);
        },
    };
    if len > buf.len() - k {
        return Err(FrameError::Truncated);
    }
    let mut body: Vec<u8> = Vec::new();
    let mut i: usize = 0;
    while i < len
        invariant
            k + len <= buf.len(),
            0 <= i <= len,
            body@ == buf@.subrange(k as int, k + i),
        decreases len - i,
    {
        body.push(buf[k + i]);
        assert(buf@.subrange(k as int, k + i + 1) == buf@.subrange(k as int, k + i).push(
            buf@[k + i],
        ));
        i = i + 1;
    }
    Ok((body, k + len))
}

/* ---------- reading back what was written ---------- */

/// Bytes below 128 are valid UTF-8 and decode to the characters with the same codes.
pub proof fn lemma_ascii_utf8(s: Seq<u8>)
    requires
        forall|i: int| 0 <= i < s.len() ==> #[trigger] s[i] < 128,
    ensures
        valid_utf8(s),
        decode_utf8(s) == s.map_values(|b: u8| b as char),
    decreases s.len(),
{
    if s.len() > 0 {
        let b = s[0];
        assert(b < 128);
        assert((b & 0x7f) == b) by (bit_vector)
            requires
                b < 128,
        ;
        assert(decode_first_codepoint(s) == b as u32);
        assert(valid_first_scalar(s));
        assert(pop_first_scalar(s) =~= s.drop_first());
        assert forall|i: int| 0 <= i < s.drop_first().len() implies #[trigger] s.drop_first()[i]
            < 128 by {
            assert(s.drop_first()[i] == s[i + 1]);
        }
        lemma_ascii_utf8(s.drop_first());
        assert(decode_utf8(s) == seq![(decode_first_scalar(s)) as char] + decode_utf8(
            pop_first_scalar(s),
        ));
        assert(decode_utf8(s) =~= s.map_values(|b: u8| b as char));
    }
}

/// `first_crlf_from(t, i)` is `e` when a CR LF starts at `e` and none starts in `i..e`.
proof fn lemma_first_crlf_is(t: Seq<char>, i: int, e: int)
    requires
        0 <= i <= e,
        crlf_at(t, e),
        forall|j: int| i <= j < e ==> !crlf_at(t, j),
    ensures
        first_crlf_from(t, i) == Some(e),
    decreases e - i,
{
    if i < e {
        lemma_first_crlf_is(t, i + 1, e);
    }
}

/// Reading a header from a stream finishes at `h` when the first `h` bytes end with the blank
/// line, no shorter prefix after `k` does, and `h` is within the header limit.
proof fn lemma_scan_finds(s: Seq<u8>, k: nat, h: nat)
    requires
        k < h <= s.len(),
        h <= MAX_HEADER + 1,
        terminated(s.take(h as int)),
        forall|j: nat| k < j < h ==> !terminated(#[trigger] s.take(j as int)),
    ensures
        scan_from(s, k) == Ok::<nat, FrameError>(h),
    decreases h - k,
{
    if k + 1 < h {
        assert(!terminated(s.take(k + 1 as int)));
        lemma_scan_finds(s, k + 1, h);
    }
}

/// The header written for a body of `n` bytes is read back as `n`.
pub proof fn lemma_header_parses(n: nat)
    requires
        n <= MAX_FRAME,
    ensures
        content_length(frame_header_spec(n)) == Ok::<usize, FrameError>(n as usize),
{
    let d = decimal(n);
    let h = frame_header_spec(n);
    lemma_decimal_digits(n);
    let dl = d.len() as int;
    assert(h.len() == 20 + dl);
    assert forall|i: int| 0 <= i < h.len() implies #[trigger] h[i] < 128 by {
        if 16 <= i < 16 + dl {
            assert(h[i] == d[i - 16]);
        }
    }
    lemma_ascii_utf8(h);
    let t = decode_utf8(h);
    assert(t == h.map_values(|b: u8| b as char));
    assert(t.len() == 20 + dl);
    let e = 16 + dl;
    // The text: "Content-Length: " then the digits then "\r\n\r\n".
    assert forall|i: int| 16 <= i < e implies '0' <= #[trigger] t[i] && t[i] <= '9' by {
        assert(h[i] == d[i - 16]);
        assert(48 <= d[i - 16] <= 57);
    }
    assert(t[e] == '\r' && t[e + 1] == '\n');
    assert forall|j: int| 0 <= j < e implies !crlf_at(t, j) by {
        if j < 16 {
            assert(t[j] == h[j] as char);
        } else {
            assert('0' <= t[j]);
        }
    }
    lemma_first_crlf_is(t, 0, e);
    assert(line_end(t, 0) == e);
    assert forall|j: int| 0 <= j < 14 implies t[j] != ':' by {
        assert(t[j] == h[j] as char);
    }
    assert(t[14] == ':');
    lemma_first_index_is(t, ':', 0, 14, e);
    let name = t.subrange(0, 14);
    assert(name =~= seq!['C', 'o', 'n', 't', 'e', 'n', 't', '-', 'L', 'e', 'n', 'g', 't', 'h']);
    assert(trim_start(name) == name);
    assert(trim_end(name) == name);
    assert(eq_ignore_ascii_case(trim(name), length_field_name()));
    assert(length_field_value(t, 0, e) == Some(t.subrange(15, e)));
    assert(length_value_from(t, 0) == Some(t.subrange(15, e)));
    let v = t.subrange(15, e);
    let dc = decimal_chars(n);
    assert(v.drop_first() =~= dc) by {
        assert forall|i: int| 0 <= i < dc.len() implies v.drop_first()[i] == dc[i] by {
            assert(v.drop_first()[i] == t[16 + i]);
            assert(t[16 + i] == h[16 + i] as char);
            assert(h[16 + i] == d[i]);
        }
    }
    assert(v[0] == ' ');
    assert(trim_start(v) == trim_start(v.drop_first()));
    assert(!is_whitespace(dc[0]));
    assert(trim_start(dc) == dc);
    assert(!is_whitespace(dc.last()));
    assert(trim_end(dc) == dc);
    assert(trim(v) == dc);
    lemma_decimal_parses(n, usize::MAX as nat);
    assert(parse_uint(dc, usize::MAX as nat) == Ok::<nat, IntErrorKind>(n));
}

/// Reading a frame from a stream that starts with the frame written for `payload` gives back
/// `payload` and consumes exactly that frame, whatever follows it.
pub proof fn lemma_read_after_write(payload: Seq<u8>, rest: Seq<u8>)
    requires
        payload.len() <= MAX_FRAME,
    ensures
        read_frame_spec(frame_bytes(payload) + rest) == Ok::<(Seq<u8>, nat), FrameError>(
            (payload, frame_bytes(payload).len()),
        ),
{
    let n = payload.len();
    let d = decimal(n);
    let h = frame_header_spec(n);
    let s = frame_bytes(payload) + rest;
    lemma_decimal_digits(n);
    lemma_decimal_len_u64(n);
    let hl = h.len();
    assert(hl == 20 + d.len());
    assert(s.take(hl as int) =~= h);
    assert(terminated(s.take(hl as int))) by {
        assert(s.take(hl as int).subrange(hl - 4, hl as int) =~= terminator());
    }
    assert forall|j: nat| 0 < j < hl implies !terminated(#[trigger] s.take(j as int)) by {
        if j >= 4 {
            let w = s.take(j as int).subrange(j - 4, j as int);
            assert(w[0] == s[j - 4]);
            assert(s[j - 4] == h[j - 4]);
            if j - 4 >= 16 {
                assert(h[j - 4] == d[j - 4 - 16]);
            }
            assert(h[j - 4] != 13);
        }
    }
    lemma_scan_finds(s, 0, hl);
    lemma_header_parses(n);
    assert(s.subrange(hl as int, hl + n as int) =~= payload);
}

/// Frames written back to back are read back in order: the first read gives the first payload and
/// consumes exactly its frame, and reading on from there gives the second.
pub proof fn lemma_frames_in_sequence(p1: Seq<u8>, p2: Seq<u8>, rest: Seq<u8>)
    requires
        p1.len() <= MAX_FRAME,
        p2.len() <= MAX_FRAME,
    ensures
        read_frame_spec(frame_bytes(p1) + frame_bytes(p2) + rest) == Ok::<
            (Seq<u8>, nat),
            FrameError,
        >((p1, frame_bytes(p1).len())),
        read_frame_spec(
            (frame_bytes(p1) + frame_bytes(p2) + rest).skip(frame_bytes(p1).len() as int),
        ) == Ok::<(Seq<u8>, nat), FrameError>((p2, frame_bytes(p2).len())),
{
    let s = frame_bytes(p1) + frame_bytes(p2) + rest;
    assert(s == frame_bytes(p1) + (frame_bytes(p2) + rest));
    lemma_read_after_write(p1, frame_bytes(p2) + rest);
    assert(s.skip(frame_bytes(p1).len() as int) =~= frame_bytes(p2) + rest);
    lemma_read_after_write(p2, rest);
}

} // verus!
