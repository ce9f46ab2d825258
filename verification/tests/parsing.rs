use rustup_toolchain_install_master::request::{
    destination_name, is_valid_commit, validate_request, InputError, ResolvedToolchain,
    ToolchainRequest,
};
use rustup_toolchain_install_master::resolve::{
    interpret_head_response, interpret_local_query, ResolveError,
};
use rustup_toolchain_install_master::channel::Channel;
use rustup_toolchain_install_master::text::{
    parse_u32_dec, parse_u64_dec, str_eq, trim_ascii_spaces,
};

const COMMIT_A: &str = "b6f580acc0ce233d5c4d239f7d086faf9bf8c7e4";
const COMMIT_B: &str = "0000000000000000000000000000000000000000";

#[test]
fn trim_removes_surrounding_whitespace() {
    assert_eq!(trim_ascii_spaces("  nightly\n"), "nightly");
    assert_eq!(trim_ascii_spaces("\t beta \r\n"), "beta");
    assert_eq!(trim_ascii_spaces("stable"), "stable");
    assert_eq!(trim_ascii_spaces("   \n\t "), "");
    assert_eq!(trim_ascii_spaces(""), "");
    assert_eq!(trim_ascii_spaces("a b"), "a b");
}

#[test]
fn parse_u64_follows_str_parse() {
    assert_eq!(parse_u64_dec("123"), Some(123));
    assert_eq!(parse_u64_dec("+42"), Some(42));
    assert_eq!(parse_u64_dec("0"), Some(0));
    assert_eq!(parse_u64_dec("007"), Some(7));
    assert_eq!(parse_u64_dec(""), None);
    assert_eq!(parse_u64_dec("+"), None);
    assert_eq!(parse_u64_dec("12a"), None);
    assert_eq!(parse_u64_dec(" 12"), None);
    assert_eq!(parse_u64_dec("-1"), None);
    assert_eq!(parse_u64_dec("18446744073709551615"), Some(u64::MAX));
    assert_eq!(parse_u64_dec("18446744073709551616"), None);
    assert_eq!(parse_u64_dec("99999999999999999999999"), None);
}

#[test]
fn parse_u32_follows_str_parse() {
    assert_eq!(parse_u32_dec("4294967295"), Some(u32::MAX));
    assert_eq!(parse_u32_dec("4294967296"), None);
    assert_eq!(parse_u32_dec("0"), Some(0));
    assert_eq!(parse_u32_dec("junk"), None);
}

#[test]
fn str_eq_compares_contents() {
    assert!(str_eq("abc", "abc"));
    assert!(!str_eq("abc", "abd"));
    assert!(!str_eq("abc", "abcd"));
    assert!(str_eq("", ""));
}

#[test]
fn commit_validation_accepts_only_40_lowercase_hex() {
    assert!(is_valid_commit(COMMIT_A));
    assert!(is_valid_commit(COMMIT_B));
    // too short, too long
    assert!(!is_valid_commit(&COMMIT_A[..39]));
    assert!(!is_valid_commit(&format!("{}0", COMMIT_A)));
    // uppercase and non-hex characters
    assert!(!is_valid_commit("B6F580ACC0CE233D5C4D239F7D086FAF9BF8C7E4"));
    assert!(!is_valid_commit("g6f580acc0ce233d5c4d239f7d086faf9bf8c7e4"));
    assert!(!is_valid_commit(""));
}

#[test]
fn malformed_commit_is_rejected_before_any_network_call() {
    let commits = vec!["not-a-commit".to_string()];
    assert_eq!(
        validate_request(&commits, false),
        Err(InputError::MalformedCommit)
    );
    let mixed = vec![COMMIT_A.to_string(), "beef".to_string()];
    assert_eq!(
        validate_request(&mixed, false),
        Err(InputError::MalformedCommit)
    );
}

#[test]
fn name_with_multiple_commits_is_rejected() {
    let commits = vec![COMMIT_A.to_string(), COMMIT_B.to_string()];
    assert_eq!(
        validate_request(&commits, true),
        Err(InputError::NameWithMultipleCommits)
    );
    // the name rule is checked first, even with a malformed commit present
    let commits = vec![COMMIT_A.to_string(), "zzz".to_string()];
    assert_eq!(
        validate_request(&commits, true),
        Err(InputError::NameWithMultipleCommits)
    );
}

#[test]
fn valid_requests_pass_validation() {
    assert_eq!(validate_request(&vec![COMMIT_A.to_string()], true), Ok(()));
    assert_eq!(
        validate_request(&vec![COMMIT_A.to_string(), COMMIT_B.to_string()], false),
        Ok(())
    );
    assert_eq!(validate_request(&vec![], false), Ok(()));
}

#[test]
fn destination_name_follows_the_three_rules() {
    assert_eq!(destination_name(COMMIT_A, false, None), COMMIT_A);
    assert_eq!(
        destination_name(COMMIT_A, true, None),
        format!("{}-alt", COMMIT_A)
    );
    assert_eq!(destination_name(COMMIT_A, true, Some("mine")), "mine");
}

#[test]
fn resolve_computes_destination_name() {
    let request = ToolchainRequest {
        commit: COMMIT_A.to_string(),
        host_target: "x86_64-unknown-linux-gnu".to_string(),
        extra_targets: vec![],
        components: vec![],
        alt: true,
        explicit_name: None,
        channel_override: Some(Channel::Nightly),
    };
    let resolved = ResolvedToolchain::resolve(request, Channel::Nightly);
    assert_eq!(resolved.destination_name, format!("{}-alt", COMMIT_A));
    assert_eq!(resolved.channel, Channel::Nightly);
}

#[test]
fn local_query_yields_the_40_hex_prefix() {
    let output = format!("{}\trefs/heads/master\n", COMMIT_A);
    assert_eq!(interpret_local_query(true, &output), Some(COMMIT_A.to_string()));
    // uppercase hex is accepted from the local query
    let upper = format!("{}\tHEAD", COMMIT_A.to_uppercase());
    assert_eq!(
        interpret_local_query(true, &upper),
        Some(COMMIT_A.to_uppercase())
    );
}

#[test]
fn local_query_failures_are_recoverable() {
    assert_eq!(interpret_local_query(false, COMMIT_A), None);
    assert_eq!(interpret_local_query(true, "short output"), None);
    assert_eq!(
        interpret_local_query(true, "fatal: unable to access the repository"),
        None
    );
    assert_eq!(interpret_local_query(true, ""), None);
}

#[test]
fn head_response_200_returns_trimmed_commit() {
    let body = format!("{}\n", COMMIT_A);
    assert_eq!(
        interpret_head_response(200, None, &body),
        Ok(COMMIT_A.to_string())
    );
    assert_eq!(
        interpret_head_response(200, None, COMMIT_A),
        Ok(COMMIT_A.to_string())
    );
}

#[test]
fn head_response_200_with_bad_body_is_malformed() {
    assert_eq!(
        interpret_head_response(200, None, "{\"message\":\"ok\"}"),
        Err(ResolveError::MalformedBody)
    );
    assert_eq!(
        interpret_head_response(200, None, ""),
        Err(ResolveError::MalformedBody)
    );
}

#[test]
fn head_response_403_splits_on_rate_limit_header() {
    assert_eq!(
        interpret_head_response(403, None, ""),
        Err(ResolveError::RateLimitExceeded)
    );
    assert_eq!(
        interpret_head_response(403, Some("0"), ""),
        Err(ResolveError::RateLimitExceeded)
    );
    assert_eq!(
        interpret_head_response(403, Some("junk"), ""),
        Err(ResolveError::RateLimitExceeded)
    );
    assert_eq!(
        interpret_head_response(403, Some("55"), ""),
        Err(ResolveError::Forbidden(55))
    );
}

#[test]
fn head_response_other_statuses_fail_hard() {
    assert_eq!(
        interpret_head_response(500, None, ""),
        Err(ResolveError::UnexpectedStatus(500))
    );
    assert_eq!(
        interpret_head_response(404, None, ""),
        Err(ResolveError::UnexpectedStatus(404))
    );
}

#[test]
fn remote_fallback_yields_the_same_40_hex_format() {
    // the local strategy being unavailable, resolution falls back to the
    // remote strategy and returns a commit of the same shape
    let local = interpret_local_query(false, "");
    assert_eq!(local, None);
    let remote = interpret_head_response(200, None, COMMIT_B).unwrap();
    assert_eq!(remote.len(), 40);
    assert!(is_valid_commit(&remote));
    assert!(remote.chars().all(|c| c.is_ascii_hexdigit()));
}
