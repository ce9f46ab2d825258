//! Release channels and channel detection.
//!
//! A commit's channel is determined by a two-tier protocol: first a fetch of
//! the commit's `package-version` metadata file, whose body names the channel
//! outright; if the server answers "not found" (or "forbidden", treated the
//! same way), a per-channel existence probe for a channel-tagged artifact,
//! asked in the fixed order nightly, beta, stable.  The functions here
//! interpret the server's answers; the unverified shell issues the requests.

use vstd::prelude::*;
use crate::text::{str_eq, trim_ascii_spaces, trim_spaces};

verus! {

/// A release cadence tag under which artifacts for a commit are published.
#[derive(Clone, Copy, Debug, PartialEq, Eq, Structural)]
pub enum Channel {
    Nightly,
    Beta,
    Stable,
}

/// The channel's name as it appears in artifact filenames and in the
/// commit's metadata file.
pub open spec fn spec_channel_label(c: Channel) -> Seq<char> {
    match c {
        Channel::Nightly => "nightly"@,
        Channel::Beta => "beta"@,
        Channel::Stable => "stable"@,
    }
}

/// Exec mirror of [`spec_channel_label`].
pub fn channel_label(c: Channel) -> (r: &'static str)
    ensures
        r@ == spec_channel_label(c),
{
    match c {
        Channel::Nightly => "nightly",
        Channel::Beta => "beta",
        Channel::Stable => "stable",
    }
}

/// The channel whose name `s` is, if any.
pub open spec fn spec_parse_channel(s: Seq<char>) -> Option<Channel> {
    if s == spec_channel_label(Channel::Nightly) {
        Some(Channel::Nightly)
    } else if s == spec_channel_label(Channel::Beta) {
        Some(Channel::Beta)
    } else if s == spec_channel_label(Channel::Stable) {
        Some(Channel::Stable)
    } else {
        None
    }
}

/// Exec mirror of [`spec_parse_channel`].
pub fn parse_channel(s: &str) -> (r: Option<Channel>)
    ensures
        r == spec_parse_channel(s@),
{
    if str_eq(s, "nightly") {
        Some(Channel::Nightly)
    } else if str_eq(s, "beta") {
        Some(Channel::Beta)
    } else if str_eq(s, "stable") {
        Some(Channel::Stable)
    } else {
        None
    }
}

/// The fixed order in which the existence fallback probes the channels:
/// decreasing likelihood for typical commits.
pub open spec fn spec_probe_order() -> Seq<Channel> {
    seq![Channel::Nightly, Channel::Beta, Channel::Stable]
}

/// Exec mirror of [`spec_probe_order`].
pub fn probe_order() -> (r: Vec<Channel>)
    ensures
        r@ == spec_probe_order(),
{
    let mut v: Vec<Channel> = Vec::new();
    v.push(Channel::Nightly);
    v.push(Channel::Beta);
    v.push(Channel::Stable);
    proof {
        assert(v@ =~= spec_probe_order());
    }
    v
}

/// What one per-channel existence probe's HTTP status means.
#[derive(Clone, Copy, Debug, PartialEq, Eq, Structural)]
pub enum ProbeResult {
    /// The channel-tagged artifact exists (200).
    Present,
    /// Not found, or forbidden, which the protocol treats the same way
    /// (404 or 403): try the next channel.
    Absent,
    /// A status outside the protocol: detection fails hard.
    Unexpected(u16),
}

/// Spec of [`interpret_existence_probe`].
pub open spec fn spec_probe_result(status: u16) -> ProbeResult {
    if status == 200 {
        ProbeResult::Present
    } else if status == 404 || status == 403 {
        ProbeResult::Absent
    } else {
        ProbeResult::Unexpected(status)
    }
}

/// Reads the status of a HEAD request for a channel-tagged artifact.
pub fn interpret_existence_probe(status: u16) -> (r: ProbeResult)
    ensures
        r == spec_probe_result(status),
{
    if status == 200 {
        ProbeResult::Present
    } else if status == 404 || status == 403 {
        ProbeResult::Absent
    } else {
        ProbeResult::Unexpected(status)
    }
}

/// What the metadata fetch decided.
#[derive(Clone, Copy, Debug, PartialEq, Eq, Structural)]
pub enum MetaStep {
    /// The metadata file exists and its trimmed body names this channel.
    Known(Channel),
    /// Not found or forbidden: fall back to the per-channel probes.
    Fallback,
    /// The metadata file exists but its body names no known channel.
    BadBody,
    /// A status outside the protocol: detection fails hard.
    Unexpected(u16),
}

/// Spec of [`interpret_metadata_probe`].
pub open spec fn spec_meta_step(status: u16, body: Seq<char>) -> MetaStep {
    if status == 200 {
        match spec_parse_channel(trim_spaces(body)) {
            Some(c) => MetaStep::Known(c),
            None => MetaStep::BadBody,
        }
    } else if status == 404 || status == 403 {
        MetaStep::Fallback
    } else {
        MetaStep::Unexpected(status)
    }
}

/// Reads the response to the fetch of the commit's `package-version` file:
/// on 200 the trimmed body is the channel name verbatim.
pub fn interpret_metadata_probe(status: u16, body: &str) -> (r: MetaStep)
    ensures
        r == spec_meta_step(status, body@),
{
    if status == 200 {
        let trimmed = trim_ascii_spaces(body);
        match parse_channel(trimmed.as_str()) {
            Some(c) => MetaStep::Known(c),
            None => MetaStep::BadBody,
        }
    } else if status == 404 || status == 403 {
        MetaStep::Fallback
    } else {
        MetaStep::Unexpected(status)
    }
}

/// Why channel detection failed.
#[derive(Clone, Copy, Debug, PartialEq, Eq, Structural)]
pub enum DetectError {
    /// The metadata file exists but names no known channel.
    BadMetadata,
    /// Some probe answered a status outside {200, 403, 404}.
    UnexpectedStatus(u16),
    /// No channel has the commit.
    NotFound,
}

/// The statuses the server answered to the three per-channel existence
/// probes; one run of detection consults them in probe order and stops at
/// the first channel that is present.
#[derive(Clone, Copy, Debug, PartialEq, Eq, Structural)]
pub struct ProbeAnswers {
    pub nightly: u16,
    pub beta: u16,
    pub stable: u16,
}

/// The existence fallback over the server's probe answers.
pub open spec fn spec_detect_fallback(probes: ProbeAnswers) -> Result<Channel, DetectError> {
    match spec_probe_result(probes.nightly) {
        ProbeResult::Present => Ok(Channel::Nightly),
        ProbeResult::Unexpected(st) => Err(DetectError::UnexpectedStatus(st)),
        ProbeResult::Absent => match spec_probe_result(probes.beta) {
            ProbeResult::Present => Ok(Channel::Beta),
            ProbeResult::Unexpected(st) => Err(DetectError::UnexpectedStatus(st)),
            ProbeResult::Absent => match spec_probe_result(probes.stable) {
                ProbeResult::Present => Ok(Channel::Stable),
                ProbeResult::Unexpected(st) => Err(DetectError::UnexpectedStatus(st)),
                ProbeResult::Absent => Err(DetectError::NotFound),
            },
        },
    }
}

/// The whole detection protocol as a function of the server's answers.
pub open spec fn spec_detect_channel(
    meta_status: u16,
    meta_body: Seq<char>,
    probes: ProbeAnswers,
) -> Result<Channel, DetectError> {
    match spec_meta_step(meta_status, meta_body) {
        MetaStep::Known(c) => Ok(c),
        MetaStep::BadBody => Err(DetectError::BadMetadata),
        MetaStep::Unexpected(st) => Err(DetectError::UnexpectedStatus(st)),
        MetaStep::Fallback => spec_detect_fallback(probes),
    }
}

/// Channel detection over the server's answers: the metadata body decides
/// where the server has one, else the first channel whose probe answered
/// "present", in probe order.
pub fn detect_channel_outcome(
    meta_status: u16,
    meta_body: &str,
    probes: ProbeAnswers,
) -> (r: Result<Channel, DetectError>)
    ensures
        r == spec_detect_channel(meta_status, meta_body@, probes),
{
    match interpret_metadata_probe(meta_status, meta_body) {
        MetaStep::Known(c) => Ok(c),
        MetaStep::BadBody => Err(DetectError::BadMetadata),
        MetaStep::Unexpected(st) => Err(DetectError::UnexpectedStatus(st)),
        MetaStep::Fallback => match interpret_existence_probe(probes.nightly) {
            ProbeResult::Present => Ok(Channel::Nightly),
            ProbeResult::Unexpected(st) => Err(DetectError::UnexpectedStatus(st)),
            ProbeResult::Absent => match interpret_existence_probe(probes.beta) {
                ProbeResult::Present => Ok(Channel::Beta),
                ProbeResult::Unexpected(st) => Err(DetectError::UnexpectedStatus(st)),
                ProbeResult::Absent => match interpret_existence_probe(probes.stable) {
                    ProbeResult::Present => Ok(Channel::Stable),
                    ProbeResult::Unexpected(st) => Err(DetectError::UnexpectedStatus(st)),
                    ProbeResult::Absent => Err(DetectError::NotFound),
                },
            },
        },
    }
}

/// Channel detection is idempotent: re-probing the same commit against the
/// same server state consults the same answers and yields the same channel.
pub proof fn lemma_detection_idempotent(
    meta_status1: u16,
    meta_body1: Seq<char>,
    probes1: ProbeAnswers,
    meta_status2: u16,
    meta_body2: Seq<char>,
    probes2: ProbeAnswers,
)
    requires
        meta_status1 == meta_status2,
        meta_body1 == meta_body2,
        probes1 == probes2,
    ensures
        spec_detect_channel(meta_status1, meta_body1, probes1) == spec_detect_channel(
            meta_status2,
            meta_body2,
            probes2,
        ),
{
}

} // verus!
