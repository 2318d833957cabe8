//! Properties of the follower's HTTP client that span its steps.
use vstd::prelude::*;
use crate::replication::log::ApplyOutcome;
use super::client::{
    CatchUpStep, CatchUpView, RetryPolicyView, RetryStateView, catch_up_step, page_failure, retry_policy_valid,
    retry_step, snapshot_recorded,
};
use super::protocol::{is_token_char, token_then_padding, valid_bearer_token};
use super::response::{framed_response, lemma_blank_line_from};
use super::url::{
    UrlOutcome, all_ascii, authority_end, base_path_of, has_bad_char, has_char, is_authority_end, is_scheme_sep,
    scheme_sep, spec_parse_after_scheme, spec_parse_base_url, trim_trailing_slashes,
};

verus! {

/// A request is sent at most as many times as its policy allows: no retry
/// follows the last allowed attempt, and each retry counts one more.
pub proof fn law_retries_stop_at_the_attempt_limit(p: RetryPolicyView, s: RetryStateView, transient: bool)
    requires
        retry_policy_valid(p),
        1 <= s.attempt,
    ensures
        s.attempt >= p.max_attempts ==> retry_step(p, s, transient) is None,
        retry_step(p, s, transient) matches Some((_, next)) ==> next.attempt == s.attempt + 1 && next.attempt
            <= p.max_attempts,
{
}

/// Pauses between attempts never shrink and never exceed the policy's
/// maximum, starting from any pause within it.
pub proof fn law_backoff_never_exceeds_its_maximum(p: RetryPolicyView, s: RetryStateView, transient: bool)
    requires
        retry_policy_valid(p),
        s.backoff_nanos <= p.max_backoff_nanos,
    ensures
        retry_step(p, s, transient) matches Some((pause, next)) ==> pause <= p.max_backoff_nanos
            && s.backoff_nanos <= next.backoff_nanos <= p.max_backoff_nanos,
{
}

/// A failure that is not transient is never retried.
pub proof fn law_terminal_failures_are_not_retried(p: RetryPolicyView, s: RetryStateView)
    ensures
        retry_step(p, s, false) is None,
{
}

/// An accepted bearer credential holds no space, CR, or LF, so it cannot
/// end its header line or start another one.
pub proof fn law_bearer_token_cannot_break_headers(t: Seq<char>)
    requires
        valid_bearer_token(t),
    ensures
        !has_char(t, ' '),
        !has_char(t, '\r'),
        !has_char(t, '\n'),
{
    reveal(has_char);
    let k = choose|k: int| #[trigger] token_then_padding(t, k);
    assert forall|i: int| 0 <= i < t.len() implies t[i] != ' ' && t[i] != '\r' && t[i] != '\n' by {
        if i < k {
            assert(is_token_char(t[i]));
        } else {
            assert(t[i] == '=');
        }
    }
}

/// An accepted response body is the tail of the response, as long as its
/// declared length and within the body bound.
pub proof fn law_framed_body_has_its_declared_length(r: Seq<u8>, max_body_bytes: usize)
    ensures
        framed_response(r, max_body_bytes) matches Ok((_, body)) ==> body.len() <= max_body_bytes && body
            == r.subrange(r.len() - body.len(), r.len() as int),
{
    lemma_blank_line_from(r, 0);
    if let Ok((_, body)) = framed_response(r, max_body_bytes) {
        assert(body =~= r.subrange(r.len() - body.len(), r.len() as int));
    }
}

/// A catch-up run acknowledges progress only once no snapshot is pending
/// and the local log has reached the authority's last index.
pub proof fn law_catch_up_acknowledges_only_at_the_target(c: CatchUpView, last: int)
    requires
        0 <= last <= u64::MAX,
    ensures
        catch_up_step(c, last) == CatchUpStep::Acknowledge ==> !c.snapshot_pending && last >= c.target_index,
        catch_up_step(c, last) matches CatchUpStep::FetchEntries { after_index, .. } ==> after_index == last,
{
}

/// A run installs at most one snapshot on compacted history: once it has
/// tried, a further compacted-history failure ends the run.
pub proof fn law_one_snapshot_attempt_per_run(c: CatchUpView, outcome: ApplyOutcome)
    ensures
        page_failure(snapshot_recorded(c, outcome), true) is None,
        !c.snapshot_attempted ==> (page_failure(c, true) matches Some(next) && next.snapshot_pending),
{
}

/// Trimming trailing '/' keeps a prefix, drops only '/' characters, and
/// leaves no '/' at the end.
proof fn lemma_trimmed_prefix(p: Seq<char>)
    ensures
        trim_trailing_slashes(p).len() <= p.len(),
        trim_trailing_slashes(p) == p.subrange(0, trim_trailing_slashes(p).len() as int),
        forall|j: int| trim_trailing_slashes(p).len() <= j < p.len() ==> p[j] == '/',
        trim_trailing_slashes(p).len() > 0 ==> trim_trailing_slashes(p).last() != '/',
    decreases p.len(),
{
    if p.len() > 0 && p.last() == '/' {
        lemma_trimmed_prefix(p.drop_last());
        let t = trim_trailing_slashes(p.drop_last());
        assert(p.drop_last().subrange(0, t.len() as int) =~= p.subrange(0, t.len() as int));
        assert forall|j: int| t.len() <= j < p.len() implies p[j] == '/' by {
            if j < p.len() - 1 {
                assert(p.drop_last()[j] == p[j]);
            }
        }
    } else {
        assert(p.subrange(0, p.len() as int) =~= p);
    }
}

/// The parts of an accepted base URL after its scheme: the authority and
/// the path, "/" where the URL names none.
proof fn lemma_parsed_path(rest: Seq<char>) -> (path: Seq<char>)
    requires
        spec_parse_after_scheme(rest) is Parsed,
    ensures
        path.len() > 0,
        path[0] == '/',
        spec_parse_after_scheme(rest)->Parsed_base_path == base_path_of(path),
{
    let end = match authority_end(rest) {
        Some(e) => e,
        None => rest.len() as int,
    };
    let suffix = rest.subrange(end, rest.len() as int);
    if suffix.len() == 0 { seq!['/'] } else { suffix }
}

/// The base path of an accepted base URL starts with '/' and ends in '/'
/// only when it is "/" itself: trailing '/' of the URL's path are trimmed.
pub proof fn law_base_path_has_no_trailing_slash(u: Seq<char>)
    requires
        spec_parse_base_url(u) is Parsed,
    ensures
        spec_parse_base_url(u)->Parsed_base_path.len() > 0,
        spec_parse_base_url(u)->Parsed_base_path[0] == '/',
        spec_parse_base_url(u)->Parsed_base_path == seq!['/'] || spec_parse_base_url(u)->Parsed_base_path.last() != '/',
{
    let sep = scheme_sep(u)->Some_0;
    let rest = u.subrange(sep + 3, u.len() as int);
    let path = lemma_parsed_path(rest);
    lemma_trimmed_prefix(path);
    let t = trim_trailing_slashes(path);
    if t.len() > 0 {
        assert(t[0] == path.subrange(0, t.len() as int)[0]);
    }
}

/// A '/' added at the end of an accepted base URL changes nothing: the URL
/// parses to the same host, port, host header and base path.
/// Where the rest of a URL holds an authority end, it holds a first one.
proof fn lemma_first_authority_end(rest: Seq<char>, k: int)
    requires
        0 <= k < rest.len(),
        is_authority_end(rest[k]),
    ensures
        exists|i: int| 0 <= i < rest.len() && is_authority_end(rest[i]) && forall|j: int| 0 <= j < i ==> !is_authority_end(rest[j]),
    decreases k,
{
    if exists|j: int| 0 <= j < k && is_authority_end(rest[j]) {
        let j = choose|j: int| 0 <= j < k && is_authority_end(rest[j]);
        lemma_first_authority_end(rest, j);
    } else {
        assert(forall|j: int| 0 <= j < k ==> !is_authority_end(rest[j]));
    }
}

/// Where a URL holds "://", it holds a first one.
proof fn lemma_first_scheme_sep(u: Seq<char>, k: int)
    requires
        is_scheme_sep(u, k),
    ensures
        exists|i: int| is_scheme_sep(u, i) && forall|j: int| 0 <= j < i ==> !is_scheme_sep(u, j),
    decreases k,
{
    if exists|j: int| 0 <= j < k && is_scheme_sep(u, j) {
        let j = choose|j: int| 0 <= j < k && is_scheme_sep(u, j);
        lemma_first_scheme_sep(u, j);
    } else {
        assert(forall|j: int| 0 <= j < k ==> !is_scheme_sep(u, j));
    }
}

/// A '/' pushed after a text without bad characters adds none.
proof fn lemma_no_bad_char_push(u: Seq<char>)
    requires
        !has_bad_char(u),
    ensures
        !has_bad_char(u.push('/')),
{
    let u2 = u.push('/');
    assert forall|i: int| 0 <= i < u2.len() implies !(crate::replication::http::url::is_ascii_control(#[trigger] u2[i])
        || crate::replication::http::url::is_ascii_whitespace(u2[i])) by {
        if i < u.len() {
            assert(u2[i] == u[i]);
        }
    }
}

#[verifier::rlimit(40)]
pub proof fn law_trailing_slash_keeps_the_base_url(u: Seq<char>)
    requires
        spec_parse_base_url(u) is Parsed,
    ensures
        spec_parse_base_url(u.push('/')) == spec_parse_base_url(u),
{
    let u2 = u.push('/');
    reveal(scheme_sep);
    let sep = scheme_sep(u)->Some_0;
    let k = choose|i: int| is_scheme_sep(u, i);
    lemma_first_scheme_sep(u, k);
    assert(is_scheme_sep(u, sep) && forall|j: int| 0 <= j < sep ==> !is_scheme_sep(u, j));
    assert(is_scheme_sep(u2, sep));
    assert forall|j: int| 0 <= j < sep implies !is_scheme_sep(u2, j) by {
        if is_scheme_sep(u2, j) {
            assert(is_scheme_sep(u, j));
        }
    }
    let w = choose|i: int| is_scheme_sep(u2, i) && forall|j: int| 0 <= j < i ==> !is_scheme_sep(u2, j);
    assert(is_scheme_sep(u2, w) && forall|j: int| 0 <= j < w ==> !is_scheme_sep(u2, j));
    assert(w == sep);
    assert(scheme_sep(u2) == Some(sep));
    lemma_no_bad_char_push(u);
    assert(u2.len() > 0);
    assert(u2.subrange(0, sep) =~= u.subrange(0, sep));
    let rest = u.subrange(sep + 3, u.len() as int);
    let rest2 = u2.subrange(sep + 3, u2.len() as int);
    assert(rest2 =~= rest.push('/'));
    lemma_trailing_slash_after_scheme(rest);
}

/// Pushing a character other than `c` keeps whether `c` occurs.
proof fn lemma_has_char_push(s: Seq<char>, x: char, c: char)
    requires
        x != c,
    ensures
        has_char(s.push(x), c) == has_char(s, c),
{
    reveal(has_char);
    if has_char(s.push(x), c) {
        let i = choose|i: int| 0 <= i < s.push(x).len() && s.push(x)[i] == c;
        assert(s[i] == c);
    }
    if has_char(s, c) {
        let i = choose|i: int| 0 <= i < s.len() && s[i] == c;
        assert(s.push(x)[i] == c);
    }
}

/// Pushing an ASCII character keeps whether all characters are ASCII.
proof fn lemma_all_ascii_push(s: Seq<char>, x: char)
    requires
        (x as u32) < 0x80,
    ensures
        all_ascii(s.push(x)) == all_ascii(s),
{
    reveal(all_ascii);
    if all_ascii(s) {
        assert forall|i: int| 0 <= i < s.push(x).len() implies (s.push(x)[i] as u32) < 0x80 by {
            if i < s.len() {
                assert(s.push(x)[i] == s[i]);
            }
        }
    }
    if all_ascii(s.push(x)) {
        assert forall|i: int| 0 <= i < s.len() implies (s[i] as u32) < 0x80 by {
            assert(s.push(x)[i] == s[i]);
        }
    }
}

/// A '/' pushed after the rest of a URL leaves where its authority ends,
/// or ends it at that '/' when nothing did.
proof fn lemma_authority_end_push(rest: Seq<char>)
    ensures
        authority_end(rest.push('/')) == Some(
            match authority_end(rest) {
                Some(e) => e,
                None => rest.len() as int,
            },
        ),
        authority_end(rest) matches Some(e) ==> 0 <= e < rest.len(),
{
    reveal(authority_end);
    let rest2 = rest.push('/');
    let e = match authority_end(rest) {
        Some(e) => e,
        None => rest.len() as int,
    };
    if exists|i: int| 0 <= i < rest.len() && is_authority_end(rest[i]) {
        let k = choose|i: int| 0 <= i < rest.len() && is_authority_end(rest[i]);
        lemma_first_authority_end(rest, k);
        assert(0 <= e < rest.len() && is_authority_end(rest[e]) && forall|j: int| 0 <= j < e ==> !is_authority_end(rest[j]));
    } else {
        assert forall|j: int| 0 <= j < e implies !is_authority_end(rest2[j]) by {
            assert(rest2[j] == rest[j]);
        }
    }
    assert(is_authority_end(rest2[e]));
    let e2 = choose|i: int| 0 <= i < rest2.len() && is_authority_end(rest2[i]) && forall|j: int| 0 <= j < i ==> !is_authority_end(rest2[j]);
    assert(0 <= e2 < rest2.len() && is_authority_end(rest2[e2]) && forall|j: int| 0 <= j < e2 ==> !is_authority_end(rest2[j]));
    if e2 < e {
        assert(rest2[e2] == rest[e2]);
    }
    assert(e2 == e);
}

#[verifier::rlimit(40)]
proof fn lemma_trailing_slash_after_scheme(rest: Seq<char>)
    requires
        spec_parse_after_scheme(rest) is Parsed,
    ensures
        spec_parse_after_scheme(rest.push('/')) == spec_parse_after_scheme(rest),
{
    let rest2 = rest.push('/');
    lemma_authority_end_push(rest);
    let e = match authority_end(rest) {
        Some(e) => e,
        None => rest.len() as int,
    };
    let suffix = rest.subrange(e, rest.len() as int);
    let suffix2 = rest2.subrange(e, rest2.len() as int);
    let path = if suffix.len() == 0 { seq!['/'] } else { suffix };
    let path2 = if suffix2.len() == 0 { seq!['/'] } else { suffix2 };
    assert(rest2.subrange(0, e) =~= rest.subrange(0, e));
    assert(suffix2 =~= suffix.push('/'));
    lemma_has_char_push(suffix, '/', '?');
    lemma_has_char_push(suffix, '/', '#');
    if suffix.len() > 0 {
        assert(path2 == path.push('/'));
        lemma_all_ascii_push(path, '/');
        assert(path2.drop_last() =~= path);
        assert(base_path_of(path2) == base_path_of(path));
        assert(path2[0] == path[0]);
    } else {
        assert(path2 =~= path);
    }
}

} // verus!
