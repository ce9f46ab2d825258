use rustup_toolchain_install_master::batch::{batch_step, run_batch_policy, BatchDirective};
use rustup_toolchain_install_master::channel::Channel;
use rustup_toolchain_install_master::install::{
    artifact_url, component_filename, download_plan, fetch_failure, install_precheck,
    metadata_url, server_prefix, FetchError, PreCheck,
};
use rustup_toolchain_install_master::request::{ResolvedToolchain, ToolchainRequest};

const COMMIT: &str = "b6f580acc0ce233d5c4d239f7d086faf9bf8c7e4";
const HOST: &str = "x86_64-unknown-linux-gnu";

fn resolved(components: Vec<&str>, extra_targets: Vec<&str>, alt: bool) -> ResolvedToolchain {
    let request = ToolchainRequest {
        commit: COMMIT.to_string(),
        host_target: HOST.to_string(),
        extra_targets: extra_targets.into_iter().map(str::to_string).collect(),
        components: components.into_iter().map(str::to_string).collect(),
        alt,
        explicit_name: None,
        channel_override: None,
    };
    ResolvedToolchain::resolve(request, Channel::Nightly)
}

#[test]
fn server_prefix_appends_the_build_directory() {
    assert_eq!(
        server_prefix("https://ci-artifacts.rust-lang.org", false),
        "https://ci-artifacts.rust-lang.org/rustc-builds"
    );
    assert_eq!(
        server_prefix("https://ci-artifacts.rust-lang.org", true),
        "https://ci-artifacts.rust-lang.org/rustc-builds-alt"
    );
}

#[test]
fn source_component_filename_omits_the_target() {
    assert_eq!(
        component_filename("rust-src", Channel::Nightly, HOST),
        "rust-src-nightly"
    );
}

#[test]
fn other_component_filenames_carry_the_target() {
    assert_eq!(
        component_filename("rustc", Channel::Nightly, HOST),
        format!("rustc-nightly-{}", HOST)
    );
    assert_eq!(
        component_filename("rust-std", Channel::Beta, "wasm32-unknown-unknown"),
        "rust-std-beta-wasm32-unknown-unknown"
    );
    assert_eq!(
        component_filename("rustc-dev", Channel::Stable, HOST),
        format!("rustc-dev-stable-{}", HOST)
    );
}

#[test]
fn artifact_urls_follow_the_store_layout() {
    assert_eq!(
        artifact_url("https://s/rustc-builds", COMMIT, "rustc-nightly-x"),
        format!("https://s/rustc-builds/{}/rustc-nightly-x.tar.xz", COMMIT)
    );
}

#[test]
fn download_plan_orders_compiler_components_then_std() {
    let toolchain = resolved(vec!["clippy", "rust-src"], vec!["t1", "t2"], false);
    let prefix = server_prefix("https://s", false);
    let plan = download_plan(&prefix, &toolchain);
    assert_eq!(plan.len(), 6);

    assert_eq!(plan[0].component, "rustc");
    assert_eq!(plan[0].target, HOST);
    assert_eq!(
        plan[0].url,
        format!("https://s/rustc-builds/{}/rustc-nightly-{}.tar.xz", COMMIT, HOST)
    );

    assert_eq!(plan[1].component, "clippy");
    assert_eq!(
        plan[1].url,
        format!("https://s/rustc-builds/{}/clippy-nightly-{}.tar.xz", COMMIT, HOST)
    );

    // the target-independent source component has no target suffix
    assert_eq!(plan[2].component, "rust-src");
    assert_eq!(
        plan[2].url,
        format!("https://s/rustc-builds/{}/rust-src-nightly.tar.xz", COMMIT)
    );

    // the standard library: extra targets in order, the host last
    assert_eq!(plan[3].component, "rust-std");
    assert_eq!(plan[3].target, "t1");
    assert_eq!(
        plan[3].url,
        format!("https://s/rustc-builds/{}/rust-std-nightly-t1.tar.xz", COMMIT)
    );
    assert_eq!(plan[4].target, "t2");
    assert_eq!(plan[5].component, "rust-std");
    assert_eq!(plan[5].target, HOST);
}

#[test]
fn download_plan_always_includes_compiler_and_host_std() {
    let toolchain = resolved(vec![], vec![], true);
    let prefix = server_prefix("https://s", true);
    let plan = download_plan(&prefix, &toolchain);
    assert_eq!(plan.len(), 2);
    assert_eq!(plan[0].component, "rustc");
    assert_eq!(
        plan[0].url,
        format!("https://s/rustc-builds-alt/{}/rustc-nightly-{}.tar.xz", COMMIT, HOST)
    );
    assert_eq!(plan[1].component, "rust-std");
    assert_eq!(plan[1].target, HOST);
}

#[test]
fn metadata_urls_follow_the_store_layout() {
    assert_eq!(
        metadata_url("https://s/rustc-builds", COMMIT),
        format!("https://s/rustc-builds/{}/package-version", COMMIT)
    );
}

#[test]
fn host_listed_as_extra_target_is_fetched_once() {
    // one rust-std per distinct target of the extra targets together
    // with the host
    let toolchain = resolved(vec![], vec!["t1", HOST], false);
    let prefix = server_prefix("https://s", false);
    let plan = download_plan(&prefix, &toolchain);
    assert_eq!(plan.len(), 3);
    assert_eq!(plan[0].component, "rustc");
    assert_eq!(plan[1].component, "rust-std");
    assert_eq!(plan[1].target, "t1");
    assert_eq!(plan[2].component, "rust-std");
    assert_eq!(plan[2].target, HOST);
    let host_std_url = format!(
        "https://s/rustc-builds/{}/rust-std-nightly-{}.tar.xz",
        COMMIT, HOST
    );
    assert_eq!(
        plan.iter().filter(|item| item.url == host_std_url).count(),
        1
    );
}

#[test]
fn duplicate_extra_targets_are_fetched_once() {
    let toolchain = resolved(vec![], vec!["t1", "t1"], false);
    let prefix = server_prefix("https://s", false);
    let plan = download_plan(&prefix, &toolchain);
    assert_eq!(plan.len(), 3);
    assert_eq!(plan[1].target, "t1");
    assert_eq!(plan[2].target, HOST);
}

#[test]
fn components_are_fetched_once_each() {
    // the implicit compiler component and a twice-requested component
    // are each fetched once
    let toolchain = resolved(vec!["rustc", "clippy", "clippy"], vec![], false);
    let prefix = server_prefix("https://s", false);
    let plan = download_plan(&prefix, &toolchain);
    assert_eq!(plan.len(), 3);
    assert_eq!(plan[0].component, "rustc");
    assert_eq!(plan[1].component, "clippy");
    assert_eq!(plan[2].component, "rust-std");
    assert_eq!(plan[2].target, HOST);
}

#[test]
fn existing_destination_without_force_is_a_no_op() {
    assert_eq!(install_precheck(true, false, false), PreCheck::AlreadyInstalled);
    assert_eq!(install_precheck(true, false, true), PreCheck::AlreadyInstalled);
}

#[test]
fn force_removes_only_on_a_real_run() {
    assert_eq!(install_precheck(true, true, false), PreCheck::RemoveThenInstall);
    // a dry run never mutates the filesystem, even under force
    assert_eq!(install_precheck(true, true, true), PreCheck::Install);
    assert_eq!(install_precheck(false, true, false), PreCheck::Install);
    assert_eq!(install_precheck(false, false, false), PreCheck::Install);
}

#[test]
fn missing_component_carries_its_context() {
    let err = fetch_failure(404, "rustc", COMMIT, Channel::Nightly, HOST, "u").unwrap();
    match err {
        FetchError::MissingComponent { component, commit, channel, target } => {
            assert_eq!(component, "rustc");
            assert_eq!(commit, COMMIT);
            assert_eq!(channel, Channel::Nightly);
            assert_eq!(target, HOST);
        },
        other => panic!("expected a missing-component error, got {:?}", other),
    }
}

#[test]
fn other_fetch_statuses_carry_status_and_url() {
    assert_eq!(fetch_failure(200, "rustc", COMMIT, Channel::Nightly, HOST, "u"), None);
    let err = fetch_failure(503, "rustc", COMMIT, Channel::Nightly, HOST, "http://u").unwrap();
    assert_eq!(
        err,
        FetchError::HttpStatus { status: 503, url: "http://u".to_string() }
    );
}

#[test]
fn only_a_failure_without_keep_going_stops_the_run() {
    assert_eq!(batch_step(false, false), BatchDirective::Stop);
    assert_eq!(batch_step(false, true), BatchDirective::Continue);
    assert_eq!(batch_step(true, false), BatchDirective::Continue);
    assert_eq!(batch_step(true, true), BatchDirective::Continue);
}

#[test]
fn keep_going_attempts_all_and_still_reports_failure() {
    // commits [A, B, C] where B fails: A and C are attempted and the run
    // as a whole is a failure
    let results = vec![true, false, true];
    assert_eq!(run_batch_policy(&results, true), (3, true));
}

#[test]
fn without_keep_going_the_first_failure_stops_the_run() {
    let results = vec![true, false, true];
    assert_eq!(run_batch_policy(&results, false), (2, true));
    let early = vec![false, true, true];
    assert_eq!(run_batch_policy(&early, false), (1, true));
}

#[test]
fn clean_runs_attempt_everything_and_succeed() {
    let results = vec![true, true, true];
    assert_eq!(run_batch_policy(&results, false), (3, false));
    assert_eq!(run_batch_policy(&results, true), (3, false));
    let empty: Vec<bool> = vec![];
    assert_eq!(run_batch_policy(&empty, true), (0, false));
    assert_eq!(run_batch_policy(&empty, false), (0, false));
}
