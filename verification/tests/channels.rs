use rustup_toolchain_install_master::channel::{
    channel_label, detect_channel_outcome, interpret_existence_probe, interpret_metadata_probe,
    parse_channel, probe_order, Channel, DetectError, MetaStep, ProbeAnswers, ProbeResult,
};

#[test]
fn labels_and_parsing_round_trip() {
    assert_eq!(channel_label(Channel::Nightly), "nightly");
    assert_eq!(channel_label(Channel::Beta), "beta");
    assert_eq!(channel_label(Channel::Stable), "stable");
    for c in [Channel::Nightly, Channel::Beta, Channel::Stable] {
        assert_eq!(parse_channel(channel_label(c)), Some(c));
    }
    assert_eq!(parse_channel("Nightly"), None);
    assert_eq!(parse_channel(""), None);
    assert_eq!(parse_channel("nightly "), None);
}

#[test]
fn probes_are_asked_nightly_beta_stable() {
    assert_eq!(
        probe_order(),
        vec![Channel::Nightly, Channel::Beta, Channel::Stable]
    );
}

#[test]
fn existence_probe_statuses() {
    assert_eq!(interpret_existence_probe(200), ProbeResult::Present);
    assert_eq!(interpret_existence_probe(404), ProbeResult::Absent);
    assert_eq!(interpret_existence_probe(403), ProbeResult::Absent);
    assert_eq!(interpret_existence_probe(500), ProbeResult::Unexpected(500));
}

#[test]
fn metadata_body_names_the_channel_verbatim() {
    assert_eq!(
        interpret_metadata_probe(200, "nightly\n"),
        MetaStep::Known(Channel::Nightly)
    );
    assert_eq!(
        interpret_metadata_probe(200, "  beta  "),
        MetaStep::Known(Channel::Beta)
    );
    assert_eq!(interpret_metadata_probe(200, "stable"), MetaStep::Known(Channel::Stable));
    assert_eq!(interpret_metadata_probe(200, "1.63.0"), MetaStep::BadBody);
    assert_eq!(interpret_metadata_probe(404, "nightly"), MetaStep::Fallback);
    assert_eq!(interpret_metadata_probe(403, ""), MetaStep::Fallback);
    assert_eq!(interpret_metadata_probe(500, ""), MetaStep::Unexpected(500));
}

#[test]
fn metadata_wins_over_probes() {
    // even though every probe would answer "present", the metadata body
    // decides
    let probes = ProbeAnswers { nightly: 200, beta: 200, stable: 200 };
    assert_eq!(
        detect_channel_outcome(200, "beta", probes),
        Ok(Channel::Beta)
    );
}

#[test]
fn fallback_takes_the_first_present_channel() {
    let beta_only = ProbeAnswers { nightly: 404, beta: 200, stable: 404 };
    assert_eq!(detect_channel_outcome(404, "", beta_only), Ok(Channel::Beta));
    let nightly_and_stable = ProbeAnswers { nightly: 200, beta: 200, stable: 200 };
    assert_eq!(
        detect_channel_outcome(404, "", nightly_and_stable),
        Ok(Channel::Nightly)
    );
    let stable_only = ProbeAnswers { nightly: 403, beta: 404, stable: 200 };
    assert_eq!(detect_channel_outcome(403, "", stable_only), Ok(Channel::Stable));
}

#[test]
fn no_channel_present_fails_naming_nothing_found() {
    let none = ProbeAnswers { nightly: 404, beta: 404, stable: 403 };
    assert_eq!(
        detect_channel_outcome(404, "", none),
        Err(DetectError::NotFound)
    );
}

#[test]
fn out_of_protocol_statuses_fail_hard() {
    let bad_probe = ProbeAnswers { nightly: 500, beta: 200, stable: 200 };
    assert_eq!(
        detect_channel_outcome(404, "", bad_probe),
        Err(DetectError::UnexpectedStatus(500))
    );
    let probes = ProbeAnswers { nightly: 200, beta: 200, stable: 200 };
    assert_eq!(
        detect_channel_outcome(418, "", probes),
        Err(DetectError::UnexpectedStatus(418))
    );
    assert_eq!(
        detect_channel_outcome(200, "who knows", probes),
        Err(DetectError::BadMetadata)
    );
}

#[test]
fn detection_is_idempotent_for_a_fixed_server_state() {
    // re-probing the same commit with the same server state yields the
    // same channel
    let states = [
        (200, "nightly", ProbeAnswers { nightly: 404, beta: 404, stable: 404 }),
        (404, "", ProbeAnswers { nightly: 404, beta: 200, stable: 404 }),
        (403, "", ProbeAnswers { nightly: 404, beta: 404, stable: 404 }),
        (500, "", ProbeAnswers { nightly: 200, beta: 200, stable: 200 }),
    ];
    for (meta_status, meta_body, probes) in states {
        let first = detect_channel_outcome(meta_status, meta_body, probes);
        let second = detect_channel_outcome(meta_status, meta_body, probes);
        assert_eq!(first, second);
    }
}
