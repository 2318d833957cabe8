//! Parsing of the plain `http://` base URL of an authority.
use vstd::prelude::*;
use crate::text::{all_digits, chars_of, concat, decimal, decimal_text, digit_value, digits_value, is_digit, substring};
use super::protocol::{ReplicationHttpError, UrlProblem};

verus! {

/// An ASCII control character.
pub open spec fn is_ascii_control(c: char) -> bool {
    (c as u32) < 0x20 || c as u32 == 0x7f
}

/// ASCII white space as `char::is_ascii_whitespace` defines it.
pub open spec fn is_ascii_whitespace(c: char) -> bool {
    c == ' ' || c == '\t' || c == '\n' || c as u32 == 0x0C || c == '\r'
}

/// `c` occurs in `s`.
#[verifier::opaque]
pub open spec fn has_char(s: Seq<char>, c: char) -> bool {
    exists|i: int| 0 <= i < s.len() && s[i] == c
}

/// The position of the first `c` in `s`.
#[verifier::opaque]
pub open spec fn first_char(s: Seq<char>, c: char) -> Option<int> {
    if has_char(s, c) {
        Some(choose|i: int| 0 <= i < s.len() && s[i] == c && forall|j: int| 0 <= j < i ==> s[j] != c)
    } else {
        None
    }
}

/// A character that ends the authority of a URL.
pub open spec fn is_authority_end(c: char) -> bool {
    c == '/' || c == '?' || c == '#'
}

/// The position where the authority of `rest` ends: its first '/', '?', or '#'.
#[verifier::opaque]
pub open spec fn authority_end(rest: Seq<char>) -> Option<int> {
    if exists|i: int| 0 <= i < rest.len() && is_authority_end(rest[i]) {
        Some(choose|i: int| 0 <= i < rest.len() && is_authority_end(rest[i]) && forall|j: int| 0 <= j < i ==> !is_authority_end(rest[j]))
    } else {
        None
    }
}

/// `://` starts at `i`.
pub open spec fn is_scheme_sep(u: Seq<char>, i: int) -> bool {
    0 <= i && i + 3 <= u.len() && u[i] == ':' && u[i + 1] == '/' && u[i + 2] == '/'
}

/// The position of the first "://" in `u`.
#[verifier::opaque]
pub open spec fn scheme_sep(u: Seq<char>) -> Option<int> {
    if exists|i: int| is_scheme_sep(u, i) {
        Some(choose|i: int| is_scheme_sep(u, i) && forall|j: int| 0 <= j < i ==> !is_scheme_sep(u, j))
    } else {
        None
    }
}

/// The ASCII lower-case form of a character.
pub open spec fn ascii_lower(c: char) -> char {
    if 'A' <= c && c <= 'Z' {
        ((c as u32) + 32) as char
    } else {
        c
    }
}

/// The scheme is "http" in any ASCII case.
pub open spec fn is_http_scheme(s: Seq<char>) -> bool {
    s.len() == 4 && ascii_lower(s[0]) == 'h' && ascii_lower(s[1]) == 't' && ascii_lower(s[2]) == 't'
        && ascii_lower(s[3]) == 'p'
}

/// What parsing an unsigned 16-bit decimal yields: an optional '+' and at least one digit.
pub open spec fn parsed_u16(s: Seq<char>) -> Option<u16> {
    let d = if s.len() > 0 && s[0] == '+' { s.drop_first() } else { s };
    if d.len() == 0 || !all_digits(d) || digits_value(d) > 65535 {
        None
    } else {
        Some(digits_value(d) as u16)
    }
}

/// A port: a decimal between 1 and 65535.
pub open spec fn spec_port_value(s: Seq<char>) -> Option<u16> {
    match parsed_u16(s) {
        Some(p) => if p == 0 { None } else { Some(p) },
        None => None,
    }
}

/// The optional ":port" after a bracketed host.
pub open spec fn spec_port_after_bracket(s: Seq<char>) -> Result<u16, UrlProblem> {
    if s.len() == 0 {
        Ok(80)
    } else if s[0] != ':' {
        Err(UrlProblem::TextAfterBracketedHost)
    } else {
        match spec_port_value(s.drop_first()) {
            Some(p) => Ok(p),
            None => Err(UrlProblem::InvalidPort),
        }
    }
}

/// A path without its trailing '/' characters.
pub open spec fn trim_trailing_slashes(p: Seq<char>) -> Seq<char>
    decreases p.len(),
{
    if p.len() > 0 && p.last() == '/' {
        trim_trailing_slashes(p.drop_last())
    } else {
        p
    }
}

/// Every character is ASCII.
#[verifier::opaque]
pub open spec fn all_ascii(s: Seq<char>) -> bool {
    forall|i: int| 0 <= i < s.len() ==> (s[i] as u32) < 0x80
}

/// A character that a host name may not hold.
pub open spec fn unsupported_host_char(c: char) -> bool {
    is_ascii_control(c) || is_ascii_whitespace(c) || c == '[' || c == ']'
}

/// Two ':' occur in `s`.
#[verifier::opaque]
pub open spec fn has_two_colons(s: Seq<char>) -> bool {
    exists|i: int, j: int| 0 <= i < j < s.len() && s[i] == ':' && s[j] == ':'
}

/// The `Host` header value for a host and port; IPv6 hosts are bracketed.
pub open spec fn host_header(host: Seq<char>, port: u16) -> Seq<char> {
    if has_char(host, ':') {
        seq!['['] + host + seq![']', ':'] + decimal(port as nat)
    } else {
        host + seq![':'] + decimal(port as nat)
    }
}

/// What parsing a base URL gives: its parts, or why it was refused.
pub enum UrlOutcome {
    Parsed { host: Seq<char>, port: u16, host_header: Seq<char>, base_path: Seq<char> },
    UnsupportedScheme(Seq<char>),
    Problem(UrlProblem),
}

/// The host and port of an authority, or why it has none.
pub open spec fn spec_host_port(a: Seq<char>) -> Result<(Seq<char>, u16), UrlProblem> {
    if a[0] == '[' {
        let r = a.drop_first();
        match first_char(r, ']') {
            None => Err(UrlProblem::MissingBracket),
            Some(close) => match spec_port_after_bracket(r.subrange(close + 1, r.len() as int)) {
                Err(p) => Err(p),
                Ok(port) => if close == 0 {
                    Err(UrlProblem::EmptyHost)
                } else {
                    Ok((r.subrange(0, close), port))
                },
            },
        }
    } else if has_two_colons(a) {
        Err(UrlProblem::UnbracketedIpv6)
    } else {
        match first_char(a, ':') {
            Some(c) => match spec_port_value(a.subrange(c + 1, a.len() as int)) {
                None => Err(UrlProblem::InvalidPort),
                Some(port) => if c == 0 {
                    Err(UrlProblem::EmptyHost)
                } else {
                    Ok((a.subrange(0, c), port))
                },
            },
            None => Ok((a, 80u16)),
        }
    }
}

/// Some character of `u` is an ASCII control or white-space character.
pub open spec fn has_bad_char(u: Seq<char>) -> bool {
    exists|i: int| 0 <= i < u.len() && (is_ascii_control(#[trigger] u[i]) || is_ascii_whitespace(u[i]))
}

/// Some character of `host` may not stand in a host name.
pub open spec fn has_unsupported_char(host: Seq<char>) -> bool {
    exists|i: int| 0 <= i < host.len() && unsupported_host_char(#[trigger] host[i])
}

/// The base path: the path without trailing '/', or "/" when nothing is left.
pub open spec fn base_path_of(path: Seq<char>) -> Seq<char> {
    let trimmed = trim_trailing_slashes(path);
    if trimmed.len() == 0 { seq!['/'] } else { trimmed }
}

/// What the part after "://" yields, once the scheme is known to be http.
pub open spec fn spec_parse_after_scheme(rest: Seq<char>) -> UrlOutcome {
    let end = match authority_end(rest) {
        Some(e) => e,
        None => rest.len() as int,
    };
    let authority = rest.subrange(0, end);
    let suffix = rest.subrange(end, rest.len() as int);
    let path = if suffix.len() == 0 { seq!['/'] } else { suffix };
    if authority.len() == 0 || has_char(authority, '@') {
        UrlOutcome::Problem(UrlProblem::HostWithUserInfo)
    } else if has_char(suffix, '?') || has_char(suffix, '#') {
        UrlOutcome::Problem(UrlProblem::QueryOrFragment)
    } else if path[0] != '/' || !all_ascii(path) {
        UrlOutcome::Problem(UrlProblem::PathNotAscii)
    } else {
        match spec_host_port(authority) {
            Err(p) => UrlOutcome::Problem(p),
            Ok((host, port)) => if has_unsupported_char(host) {
                UrlOutcome::Problem(UrlProblem::UnsupportedHostCharacter)
            } else {
                UrlOutcome::Parsed { host, port, host_header: host_header(host, port), base_path: base_path_of(path) }
            },
        }
    }
}

/// What parsing a replication base URL yields.
pub open spec fn spec_parse_base_url(u: Seq<char>) -> UrlOutcome {
    if u.len() == 0 || has_bad_char(u) {
        UrlOutcome::Problem(UrlProblem::EmptyOrWhitespace)
    } else {
        match scheme_sep(u) {
            None => UrlOutcome::Problem(UrlProblem::MissingScheme),
            Some(sep) => if !is_http_scheme(u.subrange(0, sep)) {
                UrlOutcome::UnsupportedScheme(u.subrange(0, sep))
            } else {
                spec_parse_after_scheme(u.subrange(sep + 3, u.len() as int))
            },
        }
    }
}

/// Parses the characters `from..to` of `s` as an unsigned 16-bit decimal.
#[verifier::loop_isolation(false)]
pub(crate) fn parse_u16(s: &Vec<char>, from: usize, to: usize) -> (r: Option<u16>)
    requires
        from <= to <= s@.len(),
    ensures
        r == parsed_u16(s@.subrange(from as int, to as int)),
{
    let ghost t = s@.subrange(from as int, to as int);
    let mut start = from;
    if from < to && s[from] == '+' {
        start = from + 1;
    }
    let ghost d = s@.subrange(start as int, to as int);
    assert(d =~= (if t.len() > 0 && t[0] == '+' { t.drop_first() } else { t }));
    if start == to {
        return None;
    }
    let mut value: u32 = 0;
    let mut i = start;
    while i < to
        invariant
            start <= i <= to <= s@.len(),
            d == s@.subrange(start as int, to as int),
            all_digits(s@.subrange(start as int, i as int)),
            value as nat == if digits_value(s@.subrange(start as int, i as int)) > 65536 { 65536 } else { digits_value(s@.subrange(start as int, i as int)) },
        decreases to - i,
    {
        let c = s[i];
        if !('0' <= c && c <= '9') {
            assert(d[i - start] == c);
            return None;
        }
        let ghost prev = s@.subrange(start as int, i as int);
        let ghost next = s@.subrange(start as int, i + 1);
        assert(next.drop_last() =~= prev);
        assert(next.last() == c);
        let digit = (c as u32) - ('0' as u32);
        let grown = value * 10 + digit;
        value = if grown > 65536 { 65536 } else { grown };
        assert(all_digits(next)) by {
            assert forall|j: int| 0 <= j < next.len() implies is_digit(#[trigger] next[j]) by {
                if j < prev.len() {
                    assert(next[j] == prev[j]);
                }
            }
        }
        i += 1;
    }
    assert(s@.subrange(start as int, to as int) == d);
    if value > 65535 {
        return None;
    }
    Some(value as u16)
}

/// Parses a port: a decimal between 1 and 65535.
fn parse_port_value(s: &Vec<char>, from: usize, to: usize) -> (r: Result<u16, ReplicationHttpError>)
    requires
        from <= to <= s@.len(),
    ensures
        match spec_port_value(s@.subrange(from as int, to as int)) {
            Some(p) => r matches Ok(q) && q == p,
            None => r matches Err(ReplicationHttpError::InvalidUrl(UrlProblem::InvalidPort)),
        },
{
    match parse_u16(s, from, to) {
        Some(p) => if p == 0 {
            Err(ReplicationHttpError::InvalidUrl(UrlProblem::InvalidPort))
        } else {
            Ok(p)
        },
        None => Err(ReplicationHttpError::InvalidUrl(UrlProblem::InvalidPort)),
    }
}

/// Parses the optional ":port" after a bracketed host.
fn parse_port(s: &Vec<char>, from: usize, to: usize) -> (r: Result<u16, ReplicationHttpError>)
    requires
        from <= to <= s@.len(),
    ensures
        match spec_port_after_bracket(s@.subrange(from as int, to as int)) {
            Ok(p) => r matches Ok(q) && q == p,
            Err(problem) => r matches Err(ReplicationHttpError::InvalidUrl(x)) && x == problem,
        },
{
    let ghost t = s@.subrange(from as int, to as int);
    if from == to {
        return Ok(80);
    }
    if s[from] != ':' {
        return Err(ReplicationHttpError::InvalidUrl(UrlProblem::TextAfterBracketedHost));
    }
    assert(t.drop_first() =~= s@.subrange(from + 1, to as int));
    parse_port_value(s, from + 1, to)
}


/// The first position in `from..to` holding `c`, as `first_char` reports it for that range.
#[verifier::loop_isolation(false)]
pub(crate) fn find_char(s: &Vec<char>, from: usize, to: usize, c: char) -> (r: Option<usize>)
    requires
        from <= to <= s@.len(),
    ensures
        match r {
            Some(k) => first_char(s@.subrange(from as int, to as int), c) == Some(k - from) && from <= k < to
                && s@[k as int] == c,
            None => first_char(s@.subrange(from as int, to as int), c) is None,
        },
{
    reveal(first_char);
    reveal(has_char);
    let ghost t = s@.subrange(from as int, to as int);
    let mut i = from;
    while i < to
        invariant
            from <= i <= to <= s@.len(),
            t == s@.subrange(from as int, to as int),
            forall|j: int| 0 <= j < i - from ==> t[j] != c,
        decreases to - i,
    {
        if s[i] == c {
            let ghost k = (i - from) as int;
            assert(t[k] == c);
            proof {
                let m = choose|m: int| 0 <= m < t.len() && t[m] == c && forall|j: int| 0 <= j < m ==> t[j] != c;
                if m < k {
                    assert(t[m] != c);
                } else if m > k {
                    assert(t[k] != c);
                }
            }
            return Some(i);
        }
        assert(t[i - from] == s@[i as int]);
        i += 1;
    }
    None
}

/// Whether `c` occurs in `from..to` of `s`.
fn has_char_in(s: &Vec<char>, from: usize, to: usize, c: char) -> (r: bool)
    requires
        from <= to <= s@.len(),
    ensures
        r == has_char(s@.subrange(from as int, to as int), c),
{
    reveal(has_char);
    reveal(first_char);
    let found = find_char(s, from, to, c);
    found.is_some()
}

/// The position of the first "://".
#[verifier::loop_isolation(false)]
fn find_scheme_sep(u: &Vec<char>) -> (r: Option<usize>)
    ensures
        match r {
            Some(i) => scheme_sep(u@) == Some(i as int) && i + 3 <= u@.len(),
            None => scheme_sep(u@) is None,
        },
{
    let mut i: usize = 0;
    reveal(scheme_sep);
    while u.len() >= 3 && i <= u.len() - 3
        invariant
            forall|j: int| 0 <= j < i ==> !is_scheme_sep(u@, j),
            u.len() >= 3 ==> i <= u.len() - 2,
        decreases u.len() - i,
    {
        if u[i] == ':' && u[i + 1] == '/' && u[i + 2] == '/' {
            assert(is_scheme_sep(u@, i as int));
            proof {
                let m = choose|m: int| is_scheme_sep(u@, m) && forall|j: int| 0 <= j < m ==> !is_scheme_sep(u@, j);
                if m < i {
                    assert(!is_scheme_sep(u@, m));
                } else if m > i {
                    assert(!is_scheme_sep(u@, i as int));
                }
            }
            return Some(i);
        }
        i += 1;
    }
    None
}

/// The position where the authority after `start` ends.
#[verifier::loop_isolation(false)]
fn find_authority_end(u: &Vec<char>, start: usize) -> (r: usize)
    requires
        start <= u@.len(),
    ensures
        start <= r <= u@.len(),
        authority_end(u@.subrange(start as int, u@.len() as int)) == (if r < u@.len() {
            Some((r - start) as int)
        } else {
            None::<int>
        }),
{
    reveal(authority_end);
    let ghost rest = u@.subrange(start as int, u@.len() as int);
    let mut i = start;
    while i < u.len()
        invariant
            start <= i <= u@.len(),
            rest == u@.subrange(start as int, u@.len() as int),
            forall|j: int| 0 <= j < i - start ==> !is_authority_end(rest[j]),
        decreases u.len() - i,
    {
        let c = u[i];
        if c == '/' || c == '?' || c == '#' {
            let ghost k = (i - start) as int;
            assert(rest[k] == c);
            proof {
                let m = choose|m: int| 0 <= m < rest.len() && is_authority_end(rest[m]) && forall|j: int| 0 <= j < m ==> !is_authority_end(rest[j]);
                if m < k {
                    assert(!is_authority_end(rest[m]));
                } else if m > k {
                    assert(!is_authority_end(rest[k]));
                }
            }
            return i;
        }
        assert(rest[i - start] == u@[i as int]);
        i += 1;
    }
    i
}

/// Whether two ':' occur in `from..to`.
#[verifier::loop_isolation(false)]
fn two_colons(s: &Vec<char>, from: usize, to: usize) -> (r: bool)
    requires
        from <= to <= s@.len(),
    ensures
        r == has_two_colons(s@.subrange(from as int, to as int)),
{
    reveal(has_two_colons);
    let ghost t = s@.subrange(from as int, to as int);
    let mut first: Option<usize> = None;
    let mut i = from;
    while i < to
        invariant
            from <= i <= to <= s@.len(),
            t == s@.subrange(from as int, to as int),
            forall|p: int, q: int| 0 <= p < q < i - from ==> !(t[p] == ':' && t[q] == ':'),
            first is None ==> forall|p: int| 0 <= p < i - from ==> t[p] != ':',
            first matches Some(f) ==> from <= f < i && t[f - from] == ':',
        decreases to - i,
    {
        assert(t[i - from] == s@[i as int]);
        if s[i] == ':' {
            if let Some(f) = first {
                assert(0 <= f - from < i - from < t.len() && t[f - from] == ':' && t[i - from] == ':');
                return true;
            }
            first = Some(i);
        }
        i += 1;
    }
    false
}


/// The host and port of the authority `from..to`, as absolute host bounds.
fn host_port(u: &Vec<char>, from: usize, to: usize) -> (r: Result<(usize, usize, u16), ReplicationHttpError>)
    requires
        from < to <= u@.len(),
    ensures
        match spec_host_port(u@.subrange(from as int, to as int)) {
            Ok((host, port)) => r matches Ok((hs, he, p)) && from <= hs <= he <= to && u@.subrange(hs as int, he as int) == host && p == port,
            Err(problem) => r matches Err(ReplicationHttpError::InvalidUrl(x)) && x == problem,
        },
{
    let ghost a = u@.subrange(from as int, to as int);
    assert(a[0] == u@[from as int]);
    if u[from] == '[' {
        let ghost rr = a.drop_first();
        assert(rr =~= u@.subrange(from + 1, to as int));
        let close = match find_char(u, from + 1, to, ']') {
            None => {
                return Err(ReplicationHttpError::InvalidUrl(UrlProblem::MissingBracket));
            },
            Some(c) => c,
        };
        let ghost k = close - (from + 1);
        assert(first_char(u@.subrange(from + 1, to as int), ']') == Some(k));
        assert(first_char(rr, ']') == Some(k));
        assert(rr.subrange(k + 1, rr.len() as int) =~= u@.subrange(close + 1, to as int));
        let port = match parse_port(u, close + 1, to) {
            Ok(p) => p,
            Err(e) => {
                return Err(e);
            },
        };
        if close == from + 1 {
            return Err(ReplicationHttpError::InvalidUrl(UrlProblem::EmptyHost));
        }
        assert(rr.subrange(0, k) =~= u@.subrange(from + 1, close as int));
        return Ok((from + 1, close, port));
    }
    if two_colons(u, from, to) {
        return Err(ReplicationHttpError::InvalidUrl(UrlProblem::UnbracketedIpv6));
    }
    match find_char(u, from, to, ':') {
        Some(c) => {
            let ghost k = c - from;
            assert(a.subrange(k + 1, a.len() as int) =~= u@.subrange(c + 1, to as int));
            let port = match parse_port_value(u, c + 1, to) {
                Ok(p) => p,
                Err(e) => {
                    return Err(e);
                },
            };
            if c == from {
                return Err(ReplicationHttpError::InvalidUrl(UrlProblem::EmptyHost));
            }
            assert(a.subrange(0, k) =~= u@.subrange(from as int, c as int));
            Ok((from, c, port))
        },
        None => Ok((from, to, 80)),
    }
}

/// Whether every character of `from..to` passes, or the first that fails.
fn has_unsupported_host_char(u: &Vec<char>, from: usize, to: usize) -> (r: bool)
    requires
        from <= to <= u@.len(),
    ensures
        r == exists|i: int| 0 <= i < to - from && unsupported_host_char(#[trigger] u@.subrange(from as int, to as int)[i]),
{
    let ghost h = u@.subrange(from as int, to as int);
    let mut i = from;
    while i < to
        invariant
            from <= i <= to <= u@.len(),
            h == u@.subrange(from as int, to as int),
            forall|j: int| 0 <= j < i - from ==> !unsupported_host_char(#[trigger] h[j]),
        decreases to - i,
    {
        let c = u[i];
        assert(h[i - from] == c);
        if (c as u32) < 0x20 || c as u32 == 0x7f || c == ' ' || c == '\t' || c == '\n' || c as u32 == 0x0C || c == '\r'
            || c == '[' || c == ']' {
            return true;
        }
        i += 1;
    }
    false
}

/// The part of a URL after "://", once the scheme is known to be http.
#[verifier::loop_isolation(false)]
fn parse_after_scheme(base_url: &str, u: &Vec<char>, start: usize) -> (r: Result<(String, u16, String, String), ReplicationHttpError>)
    requires
        u@ == base_url@,
        start <= u@.len(),
    ensures
        match spec_parse_after_scheme(u@.subrange(start as int, u@.len() as int)) {
            UrlOutcome::Parsed { host, port, host_header, base_path } => r matches Ok((h, p, hh, bp))
                && h@ == host && p == port && hh@ == host_header && bp@ == base_path,
            UrlOutcome::UnsupportedScheme(scheme) => r matches Err(ReplicationHttpError::UnsupportedScheme(x)) && x@ == scheme,
            UrlOutcome::Problem(problem) => r matches Err(ReplicationHttpError::InvalidUrl(x)) && x == problem,
        },
{
    let n = u.len();
    let ghost rest = u@.subrange(start as int, n as int);
    let end = find_authority_end(u, start);
    let ghost e = (end - start) as int;
    let ghost authority = rest.subrange(0, e);
    let ghost suffix = rest.subrange(e, rest.len() as int);
    assert(authority =~= u@.subrange(start as int, end as int));
    assert(suffix =~= u@.subrange(end as int, n as int));
    if end == start || has_char_in(u, start, end, '@') {
        return Err(ReplicationHttpError::InvalidUrl(UrlProblem::HostWithUserInfo));
    }
    if has_char_in(u, end, n, '?') || has_char_in(u, end, n, '#') {
        return Err(ReplicationHttpError::InvalidUrl(UrlProblem::QueryOrFragment));
    }
    let ghost path = if suffix.len() == 0 { seq!['/'] } else { suffix };
    if end < n {
        assert(path[0] == u@[end as int]);
        if u[end] != '/' {
            return Err(ReplicationHttpError::InvalidUrl(UrlProblem::PathNotAscii));
        }
        let mut j = end;
        while j < n
            invariant
                end <= j <= n,
                forall|q: int| 0 <= q < j - end ==> (path[q] as u32) < 0x80,
            decreases n - j,
        {
            assert(path[j - end] == u@[j as int]);
            if (u[j] as u32) >= 0x80 {
                proof {
                    reveal(all_ascii);
                }
                return Err(ReplicationHttpError::InvalidUrl(UrlProblem::PathNotAscii));
            }
            j += 1;
        }
    }
    proof {
        reveal(all_ascii);
        assert(all_ascii(path));
    }
    let mut tend = n;
    if end < n {
        while tend > end && u[tend - 1] == '/'
            invariant
                end <= tend <= n,
                trim_trailing_slashes(path) == trim_trailing_slashes(u@.subrange(end as int, tend as int)),
            decreases tend,
        {
            assert(u@.subrange(end as int, tend as int).drop_last() =~= u@.subrange(end as int, tend - 1));
            tend -= 1;
        }
        assert(trim_trailing_slashes(path) == u@.subrange(end as int, tend as int));
    } else {
        assert(path.drop_last() =~= Seq::<char>::empty());
        reveal_with_fuel(trim_trailing_slashes, 2);
        assert(trim_trailing_slashes(path) =~= Seq::<char>::empty());
        tend = end;
    }
    let base_path = if tend == end {
        let slash = "/";
        proof {
            reveal_strlit("/");
        }
        slash.to_owned()
    } else {
        substring(base_url, end, tend)
    };
    assert(base_path@ == base_path_of(path));
    let (hs, he, port) = match host_port(u, start, end) {
        Ok(v) => v,
        Err(err) => {
            return Err(err);
        },
    };
    let ghost host = u@.subrange(hs as int, he as int);
    if has_unsupported_host_char(u, hs, he) {
        return Err(ReplicationHttpError::InvalidUrl(UrlProblem::UnsupportedHostCharacter));
    }
    let host_text = substring(base_url, hs, he);
    let header = host_header_text(u, hs, he, &host_text, port);
    Ok((host_text, port, header, base_path))
}

/// The `Host` header value for the host `hs..he` of `u` and `port`.
fn host_header_text(u: &Vec<char>, hs: usize, he: usize, host_text: &String, port: u16) -> (r: String)
    requires
        hs <= he <= u@.len(),
        host_text@ == u@.subrange(hs as int, he as int),
    ensures
        r@ == host_header(host_text@, port),
{
    let port_text = decimal_text(port as u64);
    if has_char_in(u, hs, he, ':') {
        let open = "[";
        let close = "]:";
        proof {
            reveal_strlit("[");
            reveal_strlit("]:");
        }
        let a = concat(open, host_text);
        let b = concat(&a, close);
        let h = concat(&b, &port_text);
        assert(h@ =~= seq!['['] + host_text@ + seq![']', ':'] + decimal(port as nat));
        h
    } else {
        let colon = ":";
        proof {
            reveal_strlit(":");
        }
        let a = concat(host_text, colon);
        let h = concat(&a, &port_text);
        assert(h@ =~= host_text@ + seq![':'] + decimal(port as nat));
        h
    }
}

/// Splits a replication base URL into its host, port, `Host` header value,
/// and base path. Only plain `http://` URLs without user information, query,
/// or fragment are accepted.
#[verifier::loop_isolation(false)]
pub fn parse_base_url(base_url: &str) -> (r: Result<(String, u16, String, String), ReplicationHttpError>)
    ensures
        match spec_parse_base_url(base_url@) {
            UrlOutcome::Parsed { host, port, host_header, base_path } => r matches Ok((h, p, hh, bp))
                && h@ == host && p == port && hh@ == host_header && bp@ == base_path,
            UrlOutcome::UnsupportedScheme(scheme) => r matches Err(ReplicationHttpError::UnsupportedScheme(x)) && x@ == scheme,
            UrlOutcome::Problem(problem) => r matches Err(ReplicationHttpError::InvalidUrl(x)) && x == problem,
        },
{
    let u = chars_of(base_url);
    let n = u.len();
    if n == 0 {
        return Err(ReplicationHttpError::InvalidUrl(UrlProblem::EmptyOrWhitespace));
    }
    let mut i: usize = 0;
    while i < n
        invariant
            n == u@.len(),
            u@ == base_url@,
            forall|j: int| 0 <= j < i ==> !(is_ascii_control(#[trigger] u@[j]) || is_ascii_whitespace(u@[j])),
        decreases n - i,
    {
        let c = u[i];
        if (c as u32) < 0x20 || c as u32 == 0x7f || c == ' ' || c == '\t' || c == '\n' || c as u32 == 0x0C || c == '\r' {
            assert(is_ascii_control(u@[i as int]) || is_ascii_whitespace(u@[i as int]));
            return Err(ReplicationHttpError::InvalidUrl(UrlProblem::EmptyOrWhitespace));
        }
        i += 1;
    }
    let sep = match find_scheme_sep(&u) {
        None => {
            return Err(ReplicationHttpError::InvalidUrl(UrlProblem::MissingScheme));
        },
        Some(s) => s,
    };
    let ghost scheme = u@.subrange(0, sep as int);
    let http = sep == 4 && {
        let a = u[0];
        let b = u[1];
        let c = u[2];
        let d = u[3];
        (a == 'h' || a == 'H') && (b == 't' || b == 'T') && (c == 't' || c == 'T') && (d == 'p' || d == 'P')
    };
    proof {
        if sep == 4 {
            assert(scheme[0] == u@[0] && scheme[1] == u@[1] && scheme[2] == u@[2] && scheme[3] == u@[3]);
        }
    }
    if !http {
        return Err(ReplicationHttpError::UnsupportedScheme(substring(base_url, 0, sep)));
    }
    parse_after_scheme(base_url, &u, sep + 3)
}

} // verus!
