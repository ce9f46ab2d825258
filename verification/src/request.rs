//! Toolchain requests: commit-hash validation, the request-level input
//! rules, and the name under which a toolchain is installed.
//!
//! A request is refused here, before any network contact, when a commit is
//! not a full-length lowercase hex hash or when an explicit name is shared
//! by several commits.

use vstd::prelude::*;
use crate::channel::Channel;
use crate::text::{is_lower_hex_digit, lower_hex_digit};

verus! {

/// A commit identifier as the artifact store expects it: exactly 40
/// lowercase hexadecimal characters.
pub open spec fn valid_commit(s: Seq<char>) -> bool {
    s.len() == 40 && forall|i: int| 0 <= i < s.len() ==> is_lower_hex_digit(#[trigger] s[i])
}

/// Exec mirror of [`valid_commit`].
pub fn is_valid_commit(s: &str) -> (r: bool)
    ensures
        r == valid_commit(s@),
{
    let n = s.unicode_len();
    if n != 40 {
        return false;
    }
    let mut i: usize = 0;
    while i < n
        invariant
            n == s@.len(),
            n == 40,
            0 <= i <= n,
            forall|j: int| 0 <= j < i ==> is_lower_hex_digit(#[trigger] s@[j]),
        decreases n - i,
    {
        if !lower_hex_digit(s.get_char(i)) {
            return false;
        }
        i += 1;
    }
    true
}

/// A request refused by input validation, before any network contact.
#[derive(Clone, Copy, Debug, PartialEq, Eq, Structural)]
pub enum InputError {
    /// Some commit is not a full-length lowercase hex commit hash.
    MalformedCommit,
    /// An explicit toolchain name was given together with more than one
    /// commit: the shared name would collide.
    NameWithMultipleCommits,
}

/// Spec of [`validate_request`].
pub open spec fn spec_validate_request(commits: Seq<Seq<char>>, has_name: bool) -> Result<
    (),
    InputError,
> {
    if commits.len() > 1 && has_name {
        Err(InputError::NameWithMultipleCommits)
    } else if exists|i: int| 0 <= i < commits.len() && !valid_commit(#[trigger] commits[i]) {
        Err(InputError::MalformedCommit)
    } else {
        Ok(())
    }
}

/// The input rules of a run: an explicit name goes with a single commit
/// only, and every commit is a full lowercase hex hash.
pub fn validate_request(commits: &Vec<String>, has_name: bool) -> (r: Result<(), InputError>)
    ensures
        r == spec_validate_request(commits.deep_view(), has_name),
{
    if commits.len() > 1 && has_name {
        return Err(InputError::NameWithMultipleCommits);
    }
    let n = commits.len();
    let mut i: usize = 0;
    while i < n
        invariant
            n == commits@.len(),
            0 <= i <= n,
            !(n > 1 && has_name),
            forall|j: int| 0 <= j < i ==> valid_commit(#[trigger] commits.deep_view()[j]),
        decreases n - i,
    {
        if !is_valid_commit(commits[i].as_str()) {
            proof {
                assert(commits.deep_view()[i as int] == commits@[i as int]@);
            }
            return Err(InputError::MalformedCommit);
        }
        proof {
            assert(commits.deep_view()[i as int] == commits@[i as int]@);
        }
        i += 1;
    }
    Ok(())
}

/// A request containing a malformed commit is rejected by input validation,
/// which runs before any network call is planned or made.
pub proof fn lemma_malformed_commit_rejected(commits: Seq<Seq<char>>, has_name: bool, i: int)
    requires
        0 <= i < commits.len(),
        !valid_commit(commits[i]),
    ensures
        spec_validate_request(commits, has_name) is Err,
{
}

/// Spec of [`destination_name`]: the explicit name where one was given,
/// `{commit}-alt` for an alternate build, the commit itself otherwise.
pub open spec fn spec_destination_name(
    commit: Seq<char>,
    alt: bool,
    explicit: Option<Seq<char>>,
) -> Seq<char> {
    match explicit {
        Some(name) => name,
        None => if alt {
            commit + "-alt"@
        } else {
            commit
        },
    }
}

/// The name of the directory a toolchain is installed under.
pub fn destination_name(commit: &str, alt: bool, explicit: Option<&str>) -> (r: String)
    ensures
        r@ == spec_destination_name(commit@, alt, explicit.deep_view()),
{
    match explicit {
        Some(name) => name.to_owned(),
        None => {
            if alt {
                let mut s = commit.to_owned();
                s.append("-alt");
                s
            } else {
                commit.to_owned()
            }
        },
    }
}

/// One requested toolchain: a commit plus the options that shape its
/// installation.
pub struct ToolchainRequest {
    /// Full 40-hex lowercase commit hash of the build.
    pub commit: String,
    /// Platform triple of the host.
    pub host_target: String,
    /// Targets besides the host to install the standard library for.
    pub extra_targets: Vec<String>,
    /// Components to install besides the compiler and the standard library.
    pub components: Vec<String>,
    /// Fetch the alternate build of the commit.
    pub alt: bool,
    /// Install under this name instead of one derived from the commit.
    pub explicit_name: Option<String>,
    /// Skip detection and use this channel.
    pub channel_override: Option<Channel>,
}

impl ToolchainRequest {
    /// The request passed input validation: its commit is a full
    /// lowercase hex hash.
    pub open spec fn wf(self) -> bool {
        valid_commit(self.commit@)
    }
}

/// A request made concrete: channel fixed, destination name computed.
/// Created once per request, immutable thereafter, consumed by the
/// installer.
pub struct ResolvedToolchain {
    pub request: ToolchainRequest,
    pub channel: Channel,
    pub destination_name: String,
}

impl ResolvedToolchain {
    /// The resolved form agrees with its request: the override, where one
    /// was given, is the channel, and the destination name is derived as
    /// [`spec_destination_name`] says.
    pub open spec fn wf(self) -> bool {
        &&& self.request.wf()
        &&& (self.request.channel_override matches Some(c) ==> self.channel == c)
        &&& self.destination_name@ == spec_destination_name(
            self.request.commit@,
            self.request.alt,
            self.request.explicit_name.deep_view(),
        )
    }

    /// Fixes the channel of a validated request and computes the name the
    /// toolchain will be installed under.
    pub fn resolve(request: ToolchainRequest, channel: Channel) -> (r: ResolvedToolchain)
        requires
            request.wf(),
            request.channel_override matches Some(c) ==> channel == c,
        ensures
            r.wf(),
            r.request == request,
            r.channel == channel,
    {
        let explicit = match &request.explicit_name {
            Some(name) => Some(name.as_str()),
            None => None,
        };
        let destination_name = destination_name(request.commit.as_str(), request.alt, explicit);
        ResolvedToolchain { request, channel, destination_name }
    }
}

} // verus!
