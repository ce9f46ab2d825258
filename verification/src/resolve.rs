//! Resolving the HEAD commit when the caller supplied no commit at all:
//! a local version-control query, falling back to a remote API query
//! against the upstream repository's HEAD-commit endpoint.
//!
//! The functions here interpret the outcomes of the two strategies; the
//! unverified shell runs the subprocess and the HTTP request.  Every local
//! failure is recoverable (the coordinator falls back to the remote
//! strategy); a remote failure is final.

use vstd::prelude::*;
use crate::request::{is_valid_commit, valid_commit};
use crate::text::{
    hex_digit, is_hex_digit, is_lower_hex_digit, parse_u32_dec, parseable_u32, parsed_dec_val,
    trim_ascii_spaces, trim_spaces,
};

verus! {

/// Spec of [`interpret_local_query`]: the first 40 characters of the
/// query's output are the commit when the query succeeded and they are all
/// hex digits; anything else makes the local strategy unavailable.
pub open spec fn spec_local_commit(success: bool, output: Seq<char>) -> Option<Seq<char>> {
    if success && output.len() >= 40 && (forall|i: int|
        0 <= i < 40 ==> is_hex_digit(#[trigger] output[i])) {
        Some(output.subrange(0, 40))
    } else {
        None
    }
}

/// Reads the outcome of the local version-control query (its exit success
/// and captured output).  `None` means "unavailable: try the remote
/// strategy".
pub fn interpret_local_query(success: bool, output: &str) -> (r: Option<String>)
    ensures
        r.deep_view() == spec_local_commit(success, output@),
{
    if !success {
        return None;
    }
    let n = output.unicode_len();
    if n < 40 {
        return None;
    }
    let mut i: usize = 0;
    while i < 40
        invariant
            n == output@.len(),
            n >= 40,
            0 <= i <= 40,
            forall|j: int| 0 <= j < i ==> is_hex_digit(#[trigger] output@[j]),
        decreases 40 - i,
    {
        if !hex_digit(output.get_char(i)) {
            return None;
        }
        i += 1;
    }
    let commit = output.substring_char(0, 40);
    Some(commit.to_owned())
}

/// Why the remote HEAD-commit query failed.
#[derive(Clone, Copy, Debug, PartialEq, Eq, Structural)]
pub enum ResolveError {
    /// 403 with no rate-limit allowance left (or none reported).
    RateLimitExceeded,
    /// 403 although the reported allowance remains positive.
    Forbidden(u32),
    /// Any other non-200 status.
    UnexpectedStatus(u16),
    /// A 200 response whose trimmed body is not a 40-hex commit.
    MalformedBody,
}

/// The rate-limit allowance a 403 response reports: the parsed value of
/// the rate-limit-remaining header, or 0 where the header is missing or
/// unreadable.
pub open spec fn spec_rate_limit_remaining(header: Option<Seq<char>>) -> int {
    match header {
        Some(h) => if parseable_u32(h) {
            parsed_dec_val(h)
        } else {
            0
        },
        None => 0,
    }
}

/// Spec of [`interpret_head_response`].
pub open spec fn spec_head_resolution(
    status: u16,
    rate_limit: Option<Seq<char>>,
    body: Seq<char>,
) -> Result<Seq<char>, ResolveError> {
    if status == 200 {
        if valid_commit(trim_spaces(body)) {
            Ok(trim_spaces(body))
        } else {
            Err(ResolveError::MalformedBody)
        }
    } else if status == 403 {
        if spec_rate_limit_remaining(rate_limit) == 0 {
            Err(ResolveError::RateLimitExceeded)
        } else {
            Err(ResolveError::Forbidden(spec_rate_limit_remaining(rate_limit) as u32))
        }
    } else {
        Err(ResolveError::UnexpectedStatus(status))
    }
}

/// Reads the remote HEAD-commit response: on 200 the trimmed body is the
/// commit; a 403 is split into "rate limit exhausted" and "forbidden for
/// another reason" by the rate-limit-remaining header, defaulting to an
/// exhausted allowance where the header is absent or unreadable.
pub fn interpret_head_response(
    status: u16,
    rate_limit: Option<&str>,
    body: &str,
) -> (r: Result<String, ResolveError>)
    ensures
        (r is Ok) == (spec_head_resolution(status, rate_limit.deep_view(), body@) is Ok),
        r matches Ok(c) ==> c@ == spec_head_resolution(status, rate_limit.deep_view(), body@)->Ok_0,
        r matches Err(e) ==> e == spec_head_resolution(status, rate_limit.deep_view(), body@)->Err_0,
{
    if status == 200 {
        let trimmed = trim_ascii_spaces(body);
        if is_valid_commit(trimmed.as_str()) {
            Ok(trimmed)
        } else {
            Err(ResolveError::MalformedBody)
        }
    } else if status == 403 {
        let remaining: u32 = match rate_limit {
            Some(h) => match parse_u32_dec(h) {
                Some(v) => v,
                None => 0,
            },
            None => 0,
        };
        if remaining == 0 {
            Err(ResolveError::RateLimitExceeded)
        } else {
            Err(ResolveError::Forbidden(remaining))
        }
    } else {
        Err(ResolveError::UnexpectedStatus(status))
    }
}

/// The resolver's fallback chain over the two strategies' outcomes: the
/// local commit where the local strategy yielded one, else the remote
/// strategy's outcome.
pub open spec fn spec_resolve_head(
    local: Option<Seq<char>>,
    status: u16,
    rate_limit: Option<Seq<char>>,
    body: Seq<char>,
) -> Result<Seq<char>, ResolveError> {
    match local {
        Some(c) => Ok(c),
        None => spec_head_resolution(status, rate_limit, body),
    }
}

/// A commit the local strategy yields is exactly 40 hex characters.
pub proof fn lemma_local_format(success: bool, output: Seq<char>)
    ensures
        spec_local_commit(success, output) matches Some(c) ==> c.len() == 40 && (forall|i: int|
            0 <= i < 40 ==> is_hex_digit(#[trigger] c[i])),
{
}

/// Where the local strategy is unavailable, resolution is exactly the
/// remote strategy's outcome, and a commit resolved remotely has the same
/// 40-hex shape a locally resolved one has.
pub proof fn lemma_remote_fallback_format(
    status: u16,
    rate_limit: Option<Seq<char>>,
    body: Seq<char>,
)
    ensures
        spec_resolve_head(None, status, rate_limit, body) == spec_head_resolution(
            status,
            rate_limit,
            body,
        ),
        spec_resolve_head(None, status, rate_limit, body) matches Ok(c) ==> c.len() == 40 && (
        forall|i: int| 0 <= i < 40 ==> is_hex_digit(#[trigger] c[i])),
{
    let r = spec_resolve_head(None, status, rate_limit, body);
    if r is Ok {
        let c = r->Ok_0;
        assert(valid_commit(c));
        assert(forall|i: int| 0 <= i < 40 ==> is_lower_hex_digit(#[trigger] c[i]));
    }
}

} // verus!
