//! Framing of an HTTP/1.1 response read from the authority: the status
//! line, the `Content-Length` and `Transfer-Encoding` headers, and the size
//! bounds on headers and body.
use vstd::prelude::*;
use crate::arith::sat_add;
use crate::text::{all_digits, chars_of, digits_value, spec_is_blank, spec_is_whitespace, is_whitespace};
use super::protocol::{ReplicationHttpError, ResponseProblem};
use super::url::{ascii_lower, find_char, first_char, parse_u16, parsed_u16};

verus! {

/// The most bytes that the status line and headers of a response may take.
pub const MAX_HTTP_HEADER_BYTES: usize = 65536;

/// What `std::str::from_utf8` decodes from `bytes`: their characters when
/// they are well-formed UTF-8, else nothing.
pub open spec fn utf8_text(bytes: Seq<u8>) -> Option<Seq<char>> {
    if vstd::utf8::valid_utf8(bytes) {
        Some(vstd::utf8::decode_utf8(bytes))
    } else {
        None
    }
}

/// Decodes UTF-8 text with `std::str::from_utf8`, which accepts exactly the
/// well-formed UTF-8 byte sequences and yields the characters they encode.
#[verifier::external_body]
fn decode_utf8(bytes: &[u8]) -> (r: Option<String>)
    ensures
        match r {
            Some(s) => utf8_text(bytes@) == Some(s@),
            None => utf8_text(bytes@) is None,
        },
{
    match std::str::from_utf8(bytes) {
        Ok(text) => Some(text.to_owned()),
        Err(_) => None,
    }
}

/// The bytes "\r\n\r\n" start at `i`.
pub open spec fn blank_line_at(b: Seq<u8>, i: int) -> bool {
    &&& 0 <= i
    &&& i + 4 <= b.len()
    &&& b[i] == 13 && b[i + 1] == 10 && b[i + 2] == 13 && b[i + 3] == 10
}

/// The first "\r\n\r\n" at or after `i`.
pub open spec fn blank_line_from(b: Seq<u8>, i: int) -> Option<int>
    decreases b.len() - i,
{
    if i < 0 || i + 4 > b.len() {
        None
    } else if blank_line_at(b, i) {
        Some(i)
    } else {
        blank_line_from(b, i + 1)
    }
}

/// The characters "\r\n" start at `i`.
pub open spec fn crlf_at(s: Seq<char>, i: int) -> bool {
    0 <= i && i + 1 < s.len() && s[i] == '\r' && s[i + 1] == '\n'
}

/// The first "\r\n" at or after `i`.
pub open spec fn crlf_from(s: Seq<char>, i: int) -> Option<int>
    decreases s.len() - i,
{
    if i < 0 || i + 1 >= s.len() {
        None
    } else if crlf_at(s, i) {
        Some(i)
    } else {
        crlf_from(s, i + 1)
    }
}

/// Where `crlf_from` finds a line end, it is at or after `i` and inside the text.
pub proof fn lemma_crlf_from(s: Seq<char>, i: int)
    ensures
        crlf_from(s, i) matches Some(k) ==> i <= k && k + 1 < s.len() && crlf_at(s, k),
    decreases s.len() - i,
{
    if !(i < 0 || i + 1 >= s.len()) && !crlf_at(s, i) {
        lemma_crlf_from(s, i + 1);
    }
}

/// Where `blank_line_from` finds a blank line, it is at or after `i`.
pub proof fn lemma_blank_line_from(b: Seq<u8>, i: int)
    ensures
        blank_line_from(b, i) matches Some(k) ==> i <= k && blank_line_at(b, k),
    decreases b.len() - i,
{
    if !(i < 0 || i + 4 > b.len()) && !blank_line_at(b, i) {
        lemma_blank_line_from(b, i + 1);
    }
}

/// `s` without its leading white space.
pub open spec fn trim_start(s: Seq<char>) -> Seq<char>
    decreases s.len(),
{
    if s.len() > 0 && spec_is_whitespace(s[0]) {
        trim_start(s.drop_first())
    } else {
        s
    }
}

/// `s` without its trailing white space.
pub open spec fn trim_end(s: Seq<char>) -> Seq<char>
    decreases s.len(),
{
    if s.len() > 0 && spec_is_whitespace(s.last()) {
        trim_end(s.drop_last())
    } else {
        s
    }
}

/// `s` without leading and trailing white space, as `str::trim` leaves it.
pub open spec fn trimmed(s: Seq<char>) -> Seq<char> {
    trim_end(trim_start(s))
}

/// What parsing a `usize` decimal yields: an optional '+' and at least one digit.
pub open spec fn parsed_usize(s: Seq<char>) -> Option<usize> {
    let d = if s.len() > 0 && s[0] == '+' { s.drop_first() } else { s };
    if d.len() == 0 || !all_digits(d) || digits_value(d) > usize::MAX {
        None
    } else {
        Some(digits_value(d) as usize)
    }
}

/// `a` equals the ASCII text `b` when ASCII letters are compared without case.
pub open spec fn ascii_eq_ignore_case(a: Seq<char>, b: Seq<char>) -> bool {
    a.len() == b.len() && forall|i: int| 0 <= i < a.len() ==> ascii_lower(#[trigger] a[i]) == ascii_lower(b[i])
}

/// The status code of a status line "VERSION CODE REASON", once the
/// version is checked to start with "HTTP/".
pub open spec fn status_of(line: Seq<char>) -> Result<u16, ResponseProblem> {
    match first_char(line, ' ') {
        None => Err(ResponseProblem::StatusMissing),
        Some(s1) => {
            let after = line.subrange(s1 + 1, line.len() as int);
            let code = match first_char(after, ' ') {
                Some(s2) => after.subrange(0, s2),
                None => after,
            };
            match parsed_u16(code) {
                None => Err(ResponseProblem::StatusInvalid),
                Some(status) => if line.subrange(0, s1).len() >= 5 && line.subrange(0, 5) == "HTTP/"@ {
                    Ok(status)
                } else {
                    Err(ResponseProblem::VersionInvalid)
                },
            }
        },
    }
}

/// The effect of one header line on the content length seen so far.
pub open spec fn header_step(line: Seq<char>, seen: Option<usize>) -> Result<Option<usize>, ResponseProblem> {
    if line.len() == 0 {
        Ok(seen)
    } else {
        match first_char(line, ':') {
            None => Err(ResponseProblem::HeaderMalformed),
            Some(k) => {
                let name = line.subrange(0, k);
                let value = line.subrange(k + 1, line.len() as int);
                if ascii_eq_ignore_case(name, "transfer-encoding"@) && !spec_is_blank(value) {
                    Err(ResponseProblem::ChunkedUnsupported)
                } else if ascii_eq_ignore_case(name, "content-length"@) {
                    match parsed_usize(trimmed(value)) {
                        None => Err(ResponseProblem::ContentLengthInvalid),
                        Some(n) => if seen is Some {
                            Err(ResponseProblem::ContentLengthRepeated)
                        } else {
                            Ok(Some(n))
                        },
                    }
                } else {
                    Ok(seen)
                }
            },
        }
    }
}

/// The content length declared by the header lines of `h` from `pos` on.
pub open spec fn scan_headers(h: Seq<char>, pos: int, seen: Option<usize>) -> Result<Option<usize>, ResponseProblem>
    decreases h.len() - pos,
{
    match crlf_from(h, pos) {
        None => if 0 <= pos <= h.len() {
            header_step(h.subrange(pos, h.len() as int), seen)
        } else {
            Ok(seen)
        },
        Some(k) => {
            proof {
                lemma_crlf_from(h, pos);
            }
            match header_step(h.subrange(pos, k), seen) {
                Err(p) => Err(p),
                Ok(next) => scan_headers(h, k + 2, next),
            }
        },
    }
}

/// The status and declared content length of the response head `h`: the
/// header bytes without their final "\r\n", as text.
pub open spec fn response_head(h: Seq<char>) -> Result<(u16, Option<usize>), ResponseProblem> {
    let line = match crlf_from(h, 0) {
        Some(k) => h.subrange(0, k),
        None => h,
    };
    match status_of(line) {
        Err(p) => Err(p),
        Ok(status) => match crlf_from(h, 0) {
            None => Ok((status, None)),
            Some(k) => match scan_headers(h, k + 2, None) {
                Err(p) => Err(p),
                Ok(length) => Ok((status, length)),
            },
        },
    }
}

/// The most bytes that a whole response with a body of at most
/// `max_body_bytes` may take.
pub open spec fn response_limit(max_body_bytes: usize) -> usize {
    sat_add(max_body_bytes, MAX_HTTP_HEADER_BYTES)
}

/// What a complete response yields: its status and body, or why it is refused.
pub open spec fn framed_response(r: Seq<u8>, max_body_bytes: usize) -> Result<(u16, Seq<u8>), ResponseProblem> {
    if r.len() > response_limit(max_body_bytes) {
        Err(ResponseProblem::TooLarge)
    } else {
        match blank_line_from(r, 0) {
            None => Err(ResponseProblem::HeadersIncomplete),
            Some(i) => {
                let end = i + 4;
                if end > MAX_HTTP_HEADER_BYTES {
                    Err(ResponseProblem::HeadersTooLarge)
                } else {
                    match utf8_text(r.subrange(0, end - 2)) {
                        None => Err(ResponseProblem::HeadersNotUtf8),
                        Some(h) => match response_head(h) {
                            Err(p) => Err(p),
                            Ok((status, length)) => match length {
                                None => Err(ResponseProblem::ContentLengthMissing),
                                Some(n) => if n > max_body_bytes {
                                    Err(ResponseProblem::BodyTooLarge)
                                } else if r.len() - end != n {
                                    Err(ResponseProblem::ContentLengthMismatch {
                                        declared: n,
                                        received: (r.len() - end) as usize,
                                    })
                                } else {
                                    Ok((status, r.subrange(end, r.len() as int)))
                                },
                            },
                        },
                    }
                }
            },
        }
    }
}

/// The first "\r\n\r\n" of a response.
fn find_blank_line(b: &[u8]) -> (r: Option<usize>)
    ensures
        match blank_line_from(b@, 0) {
            Some(k) => r == Some(k as usize),
            None => r is None,
        },
{
    let mut i: usize = 0;
    while i < b.len() && b.len() - i >= 4
        invariant
            blank_line_from(b@, 0) == blank_line_from(b@, i as int),
        decreases b.len() - i,
    {
        if b[i] == 13 && b[i + 1] == 10 && b[i + 2] == 13 && b[i + 3] == 10 {
            return Some(i);
        }
        i += 1;
    }
    None
}

/// The first "\r\n" of `h` at or after `from`.
fn find_crlf(h: &Vec<char>, from: usize) -> (r: Option<usize>)
    ensures
        match crlf_from(h@, from as int) {
            Some(k) => r == Some(k as usize),
            None => r is None,
        },
{
    let mut i = from;
    while i < h.len() && i + 1 < h.len()
        invariant
            from <= i,
            crlf_from(h@, from as int) == crlf_from(h@, i as int),
        decreases h.len() - i,
    {
        if h[i] == '\r' && h[i + 1] == '\n' {
            return Some(i);
        }
        i += 1;
    }
    None
}

/// Whether the characters `a..b` of `h` are all white space.
fn blank_range(h: &Vec<char>, a: usize, b: usize) -> (r: bool)
    requires
        a <= b <= h@.len(),
    ensures
        r == spec_is_blank(h@.subrange(a as int, b as int)),
{
    let ghost t = h@.subrange(a as int, b as int);
    let mut i = a;
    while i < b
        invariant
            a <= i <= b <= h@.len(),
            t == h@.subrange(a as int, b as int),
            forall|j: int| 0 <= j < i - a ==> spec_is_whitespace(#[trigger] t[j]),
        decreases b - i,
    {
        if !is_whitespace(h[i]) {
            assert(t[i - a] == h@[i as int]);
            return false;
        }
        assert(t[i - a] == h@[i as int]);
        i += 1;
    }
    true
}

proof fn lemma_trim_start_step(s: Seq<char>, i: int)
    requires
        0 <= i < s.len(),
        spec_is_whitespace(s[i]),
    ensures
        trim_start(s.subrange(i, s.len() as int)) == trim_start(s.subrange(i + 1, s.len() as int)),
{
    let t = s.subrange(i, s.len() as int);
    assert(t.drop_first() =~= s.subrange(i + 1, s.len() as int));
}

proof fn lemma_trim_end_step(s: Seq<char>, j: int)
    requires
        0 < j <= s.len(),
        spec_is_whitespace(s[j - 1]),
    ensures
        trim_end(s.subrange(0, j)) == trim_end(s.subrange(0, j - 1)),
{
    let t = s.subrange(0, j);
    assert(t.drop_last() =~= s.subrange(0, j - 1));
}

/// The bounds of the characters `a..b` of `h` once trimmed.
fn trim_range(h: &Vec<char>, a: usize, b: usize) -> (r: (usize, usize))
    requires
        a <= b <= h@.len(),
    ensures
        a <= r.0 <= r.1 <= b,
        h@.subrange(r.0 as int, r.1 as int) == trimmed(h@.subrange(a as int, b as int)),
{
    let ghost t = h@.subrange(a as int, b as int);
    let mut lo = a;
    assert(t.subrange(0, t.len() as int) =~= t);
    while lo < b && is_whitespace(h[lo])
        invariant
            a <= lo <= b <= h@.len(),
            t == h@.subrange(a as int, b as int),
            trim_start(t) == trim_start(t.subrange(lo - a, t.len() as int)),
        decreases b - lo,
    {
        proof {
            assert(t[lo - a] == h@[lo as int]);
            lemma_trim_start_step(t, lo - a);
        }
        lo += 1;
    }
    let ghost u = t.subrange(lo - a, t.len() as int);
    assert(u =~= h@.subrange(lo as int, b as int));
    assert(trim_start(t) == u) by {
        if u.len() > 0 {
            assert(u[0] == h@[lo as int]);
        }
    }
    let mut hi = b;
    assert(u.subrange(0, u.len() as int) =~= u);
    while hi > lo && is_whitespace(h[hi - 1])
        invariant
            a <= lo <= hi <= b <= h@.len(),
            u == h@.subrange(lo as int, b as int),
            trim_end(u) == trim_end(u.subrange(0, hi - lo)),
        decreases hi - lo,
    {
        proof {
            assert(u[hi - 1 - lo] == h@[hi - 1]);
            lemma_trim_end_step(u, hi - lo);
        }
        hi -= 1;
    }
    let ghost w = u.subrange(0, hi - lo);
    assert(w =~= h@.subrange(lo as int, hi as int));
    assert(trim_end(u) == w) by {
        if w.len() > 0 {
            assert(w.last() == h@[hi - 1]);
        }
    }
    (lo, hi)
}

/// Parses the characters `a..b` of `h` as a `usize` decimal.
#[verifier::loop_isolation(false)]
fn parse_usize(h: &Vec<char>, a: usize, b: usize) -> (r: Option<usize>)
    requires
        a <= b <= h@.len(),
    ensures
        r == parsed_usize(h@.subrange(a as int, b as int)),
{
    let ghost t = h@.subrange(a as int, b as int);
    let mut start = a;
    if a < b && h[a] == '+' {
        start = a + 1;
    }
    let ghost d = h@.subrange(start as int, b as int);
    assert(d =~= (if t.len() > 0 && t[0] == '+' { t.drop_first() } else { t }));
    if start == b {
        return None;
    }
    let mut value: usize = 0;
    let mut i = start;
    while i < b
        invariant
            start <= i <= b <= h@.len(),
            d == h@.subrange(start as int, b as int),
            all_digits(h@.subrange(start as int, i as int)),
            value as nat == digits_value(h@.subrange(start as int, i as int)),
        decreases b - i,
    {
        let c = h[i];
        if !('0' <= c && c <= '9') {
            assert(d[i - start] == c);
            return None;
        }
        let ghost prev = h@.subrange(start as int, i as int);
        let ghost next = h@.subrange(start as int, i + 1);
        assert(next.drop_last() =~= prev);
        assert(next.last() == c);
        let digit = ((c as u32) - ('0' as u32)) as usize;
        assert(all_digits(next)) by {
            assert forall|j: int| 0 <= j < next.len() implies crate::text::is_digit(#[trigger] next[j]) by {
                if j < prev.len() {
                    assert(next[j] == prev[j]);
                }
            }
        }
        if value > (usize::MAX - digit) / 10 {
            proof {
                assert(digits_value(next) == value * 10 + digit);
                assert(value * 10 + digit > usize::MAX) by (nonlinear_arith)
                    requires
                        value > (usize::MAX - digit) / 10,
                        digit <= 9,
                ;
                lemma_digits_value_grows(h@.subrange(start as int, b as int), (i + 1 - start) as int);
                assert(h@.subrange(start as int, b as int).subrange(0, i + 1 - start) =~= next);
            }
            return None;
        }
        value = value * 10 + digit;
        i += 1;
    }
    Some(value)
}

/// Parses all of `s` as a `usize` decimal.
pub(crate) fn parse_decimal_usize(s: &Vec<char>) -> (r: Option<usize>)
    ensures
        r == parsed_usize(s@),
{
    assert(s@.subrange(0, s@.len() as int) =~= s@);
    parse_usize(s, 0, s.len())
}

/// A decimal is at least the value of any of its prefixes.
proof fn lemma_digits_value_grows(s: Seq<char>, k: int)
    requires
        0 <= k <= s.len(),
    ensures
        digits_value(s.subrange(0, k)) <= digits_value(s),
    decreases s.len() - k,
{
    if k < s.len() {
        lemma_digits_value_grows(s, k + 1);
        let p = s.subrange(0, k + 1);
        assert(p.drop_last() =~= s.subrange(0, k));
        assert(digits_value(p) == digits_value(s.subrange(0, k)) * 10 + crate::text::digit_value(p.last()));
    } else {
        assert(s.subrange(0, k) =~= s);
    }
}

/// Whether the characters `a..b` of `h` equal the ASCII text `lit`
/// without regard to ASCII case.
fn eq_ignore_case_in(h: &Vec<char>, a: usize, b: usize, lit: &str) -> (r: bool)
    requires
        a <= b <= h@.len(),
    ensures
        r == ascii_eq_ignore_case(h@.subrange(a as int, b as int), lit@),
{
    let l = chars_of(lit);
    let ghost t = h@.subrange(a as int, b as int);
    if b - a != l.len() {
        return false;
    }
    let mut i: usize = 0;
    while i < l.len()
        invariant
            l@ == lit@,
            t == h@.subrange(a as int, b as int),
            t.len() == l@.len(),
            a <= b <= h@.len(),
            i <= l.len(),
            forall|j: int| 0 <= j < i ==> ascii_lower(#[trigger] t[j]) == ascii_lower(l@[j]),
        decreases l.len() - i,
    {
        let x = h[a + i];
        let y = l[i];
        let lx: u32 = if 'A' <= x && x <= 'Z' { (x as u32) + 32 } else { x as u32 };
        let ly: u32 = if 'A' <= y && y <= 'Z' { (y as u32) + 32 } else { y as u32 };
        assert(t[i as int] == x);
        assert(ascii_lower(x) as u32 == lx && ascii_lower(y) as u32 == ly);
        if lx != ly {
            return false;
        }
        i += 1;
    }
    true
}

/// The status code of the status line held in the characters `a..b` of `h`.
#[verifier::loop_isolation(false)]
fn status_line(h: &Vec<char>, a: usize, b: usize) -> (r: Result<u16, ResponseProblem>)
    requires
        a <= b <= h@.len(),
    ensures
        r == status_of(h@.subrange(a as int, b as int)),
{
    let ghost line = h@.subrange(a as int, b as int);
    let s1 = match find_char(h, a, b, ' ') {
        None => {
            return Err(ResponseProblem::StatusMissing);
        },
        Some(k) => k,
    };
    let ghost after = line.subrange(s1 - a + 1, line.len() as int);
    assert(after =~= h@.subrange(s1 + 1, b as int));
    let code_end = match find_char(h, s1 + 1, b, ' ') {
        Some(k) => k,
        None => b,
    };
    assert(h@.subrange(s1 + 1, code_end as int) == match first_char(after, ' ') {
        Some(s2) => after.subrange(0, s2),
        None => after,
    }) by {
        if code_end < b {
            assert(h@.subrange(s1 + 1, code_end as int) =~= after.subrange(0, code_end - s1 - 1));
        }
    }
    let status = match parse_u16(h, s1 + 1, code_end) {
        None => {
            return Err(ResponseProblem::StatusInvalid);
        },
        Some(v) => v,
    };
    let ghost version = line.subrange(0, s1 - a);
    let prefix = chars_of("HTTP/");
    proof {
        reveal_strlit("HTTP/");
    }
    assert(version.len() == s1 - a);
    assert(first_char(line, ' ') == Some((s1 - a) as int));
    assert(parsed_u16(match first_char(after, ' ') {
        Some(s2) => after.subrange(0, s2),
        None => after,
    }) == Some(status));
    if s1 - a < 5 {
        return Err(ResponseProblem::VersionInvalid);
    }
    let mut i: usize = 0;
    while i < 5
        invariant
            prefix@ == "HTTP/"@,
            prefix@.len() == 5,
            s1 - a >= 5,
            a <= s1 < b <= h@.len(),
            line == h@.subrange(a as int, b as int),
            i <= 5,
            forall|j: int| 0 <= j < i ==> line[j] == prefix@[j],
        decreases 5 - i,
    {
        if h[a + i] != prefix[i] {
            assert(line[i as int] == h@[a + i]);
            assert(line.subrange(0, 5)[i as int] != "HTTP/"@[i as int]);
            return Err(ResponseProblem::VersionInvalid);
        }
        i += 1;
    }
    assert(line.subrange(0, 5) =~= "HTTP/"@);
    Ok(status)
}

/// The effect of the header line held in the characters `a..b` of `h`.
fn header_line(h: &Vec<char>, a: usize, b: usize, seen: Option<usize>) -> (r: Result<Option<usize>, ResponseProblem>)
    requires
        a <= b <= h@.len(),
    ensures
        r == header_step(h@.subrange(a as int, b as int), seen),
{
    let ghost line = h@.subrange(a as int, b as int);
    if a == b {
        return Ok(seen);
    }
    let k = match find_char(h, a, b, ':') {
        None => {
            return Err(ResponseProblem::HeaderMalformed);
        },
        Some(k) => k,
    };
    assert(line.subrange(0, k - a) =~= h@.subrange(a as int, k as int));
    assert(line.subrange(k - a + 1, line.len() as int) =~= h@.subrange(k + 1, b as int));
    if eq_ignore_case_in(h, a, k, "transfer-encoding") && !blank_range(h, k + 1, b) {
        return Err(ResponseProblem::ChunkedUnsupported);
    }
    if eq_ignore_case_in(h, a, k, "content-length") {
        let (lo, hi) = trim_range(h, k + 1, b);
        let n = match parse_usize(h, lo, hi) {
            None => {
                return Err(ResponseProblem::ContentLengthInvalid);
            },
            Some(n) => n,
        };
        if seen.is_some() {
            return Err(ResponseProblem::ContentLengthRepeated);
        }
        return Ok(Some(n));
    }
    Ok(seen)
}

/// The status and declared content length of a response head: the header
/// text up to, and without, the "\r\n" that ends the last header line.
pub fn parse_response_head(head: &str) -> (r: Result<(u16, Option<usize>), ReplicationHttpError>)
    ensures
        match response_head(head@) {
            Ok(v) => r == Ok::<(u16, Option<usize>), ReplicationHttpError>(v),
            Err(p) => r == Err::<(u16, Option<usize>), ReplicationHttpError>(ReplicationHttpError::InvalidResponse(p)),
        },
{
    let h = chars_of(head);
    let first = find_crlf(&h, 0);
    let line_end = match first {
        Some(k) => k,
        None => h.len(),
    };
    proof {
        lemma_crlf_from(h@, 0);
        if first is None {
            assert(h@.subrange(0, h@.len() as int) =~= h@);
        }
    }
    let status = match status_line(&h, 0, line_end) {
        Err(p) => {
            return Err(ReplicationHttpError::InvalidResponse(p));
        },
        Ok(s) => s,
    };
    let mut pos = match first {
        None => {
            return Ok((status, None));
        },
        Some(k) => k + 2,
    };
    let ghost start = pos as int;
    let mut seen: Option<usize> = None;
    loop
        invariant
            h@ == head@,
            start == line_end + 2,
            first == Some(line_end),
            pos <= h@.len(),
            scan_headers(h@, start, None) == scan_headers(h@, pos as int, seen),
            response_head(head@) == match scan_headers(h@, start, None) {
                Err(p) => Err(p),
                Ok(length) => Ok((status, length)),
            },
        decreases h@.len() - pos,
    {
        let next = find_crlf(&h, pos);
        proof {
            lemma_crlf_from(h@, pos as int);
        }
        match next {
            None => {
                match header_line(&h, pos, h.len(), seen) {
                    Err(p) => {
                        return Err(ReplicationHttpError::InvalidResponse(p));
                    },
                    Ok(s) => {
                        return Ok((status, s));
                    },
                }
            },
            Some(k) => {
                match header_line(&h, pos, k, seen) {
                    Err(p) => {
                        return Err(ReplicationHttpError::InvalidResponse(p));
                    },
                    Ok(s) => {
                        seen = s;
                    },
                }
                pos = k + 2;
            },
        }
    }
}

/// A complete response that was framed correctly.
#[derive(Debug)]
pub struct HttpReply {
    pub status: u16,
    pub body: Vec<u8>,
}

impl HttpReply {
    /// A 2xx status.
    pub fn is_success(&self) -> (r: bool)
        ensures
            r == (200 <= self.status < 300),
    {
        200 <= self.status && self.status < 300
    }
}

/// The most bytes to read for a response whose body may take
/// `max_body_bytes`; reading stops with an error beyond it.
pub fn response_byte_limit(max_body_bytes: usize) -> (r: usize)
    ensures
        r == response_limit(max_body_bytes),
{
    max_body_bytes.saturating_add(MAX_HTTP_HEADER_BYTES)
}

/// Frames a complete response: its status line and headers must be UTF-8
/// and within their bound, declare the body length exactly once, and use
/// no transfer encoding; the body must have that length.
pub fn parse_response(response: &[u8], max_body_bytes: usize) -> (r: Result<HttpReply, ReplicationHttpError>)
    ensures
        match framed_response(response@, max_body_bytes) {
            Ok((status, body)) => r matches Ok(reply) && reply.status == status && reply.body@ == body,
            Err(p) => r matches Err(e) && e == ReplicationHttpError::InvalidResponse(p),
        },
{
    if response.len() > response_byte_limit(max_body_bytes) {
        return Err(ReplicationHttpError::InvalidResponse(ResponseProblem::TooLarge));
    }
    let i = match find_blank_line(response) {
        None => {
            return Err(ReplicationHttpError::InvalidResponse(ResponseProblem::HeadersIncomplete));
        },
        Some(i) => i,
    };
    proof {
        lemma_blank_line_from(response@, 0);
    }
    let end = i + 4;
    if end > MAX_HTTP_HEADER_BYTES {
        return Err(ReplicationHttpError::InvalidResponse(ResponseProblem::HeadersTooLarge));
    }
    let head_bytes = vstd::slice::slice_subrange(response, 0, end - 2);
    let head = match decode_utf8(head_bytes) {
        None => {
            return Err(ReplicationHttpError::InvalidResponse(ResponseProblem::HeadersNotUtf8));
        },
        Some(text) => text,
    };
    let (status, length) = match parse_response_head(&head) {
        Err(e) => {
            return Err(e);
        },
        Ok(v) => v,
    };
    let n = match length {
        None => {
            return Err(ReplicationHttpError::InvalidResponse(ResponseProblem::ContentLengthMissing));
        },
        Some(n) => n,
    };
    if n > max_body_bytes {
        return Err(ReplicationHttpError::InvalidResponse(ResponseProblem::BodyTooLarge));
    }
    let received = response.len() - end;
    if received != n {
        return Err(ReplicationHttpError::InvalidResponse(
            ResponseProblem::ContentLengthMismatch { declared: n, received },
        ));
    }
    let mut body: Vec<u8> = Vec::new();
    let mut j = end;
    while j < response.len()
        invariant
            end <= j <= response@.len(),
            body@ == response@.subrange(end as int, j as int),
        decreases response.len() - j,
    {
        body.push(response[j]);
        assert(response@.subrange(end as int, j + 1) =~= response@.subrange(end as int, j as int).push(response@[j as int]));
        j += 1;
    }
    Ok(HttpReply { status, body })
}

} // verus!
