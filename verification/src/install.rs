//! Planning the installation of one resolved toolchain.
//!
//! Installation proceeds in fixed order: a pre-check against the existing
//! destination (the already-installed, force and dry-run rules), channel
//! resolution where no override was given, one download per distinct
//! component — the implicit compiler component first, then the requested
//! extras — then the standard library once per distinct target of the
//! extra targets together with the host, which is always included, and
//! finally, where every download succeeded, the atomic publication of the
//! staging directory; a failed download aborts that toolchain's
//! installation at once.  The functions here compute those decisions and
//! the exact artifact URLs; the unverified shell carries them out.

use vstd::prelude::*;
use crate::channel::{channel_label, spec_channel_label, Channel};
use crate::request::ResolvedToolchain;
use crate::text::{contains_str, str_eq};

verus! {

/// Spec of [`server_prefix`]: the artifact directory for normal or
/// alternate builds under the artifact server.
pub open spec fn spec_server_prefix(server: Seq<char>, alt: bool) -> Seq<char> {
    server + "/rustc-builds"@ + if alt {
        "-alt"@
    } else {
        Seq::<char>::empty()
    }
}

/// The URL prefix all of a run's artifacts are fetched under.
pub fn server_prefix(server: &str, alt: bool) -> (r: String)
    ensures
        r@ == spec_server_prefix(server@, alt),
{
    let mut s = server.to_owned();
    s.append("/rustc-builds");
    if alt {
        s.append("-alt");
    }
    proof {
        assert(s@ =~= spec_server_prefix(server@, alt));
    }
    s
}

/// Spec of [`component_filename`]: `{component}-{channel}-{host}`, except
/// the target-independent source component, which omits the target.
pub open spec fn spec_component_filename(
    component: Seq<char>,
    channel: Channel,
    host: Seq<char>,
) -> Seq<char> {
    if component == "rust-src"@ {
        component + "-"@ + spec_channel_label(channel)
    } else {
        component + "-"@ + spec_channel_label(channel) + "-"@ + host
    }
}

/// The artifact filename (without extension) of one component.
pub fn component_filename(component: &str, channel: Channel, host: &str) -> (r: String)
    ensures
        r@ == spec_component_filename(component@, channel, host@),
{
    let mut s = component.to_owned();
    s.append("-");
    s.append(channel_label(channel));
    if !str_eq(component, "rust-src") {
        s.append("-");
        s.append(host);
    }
    proof {
        assert(s@ =~= spec_component_filename(component@, channel, host@));
    }
    s
}

/// The source component's artifact filename omits the target suffix;
/// every other component's filename carries it.
pub proof fn lemma_source_component_filename(
    component: Seq<char>,
    channel: Channel,
    host: Seq<char>,
)
    ensures
        component == "rust-src"@ ==> spec_component_filename(component, channel, host)
            == component + "-"@ + spec_channel_label(channel),
        component != "rust-src"@ ==> spec_component_filename(component, channel, host)
            == component + "-"@ + spec_channel_label(channel) + "-"@ + host,
{
}

/// Spec of [`artifact_url`]: `{prefix}/{commit}/{filename}.tar.xz`.
pub open spec fn spec_artifact_url(
    prefix: Seq<char>,
    commit: Seq<char>,
    filename: Seq<char>,
) -> Seq<char> {
    prefix + "/"@ + commit + "/"@ + filename + ".tar.xz"@
}

/// The URL one archive is fetched from.
pub fn artifact_url(prefix: &str, commit: &str, filename: &str) -> (r: String)
    ensures
        r@ == spec_artifact_url(prefix@, commit@, filename@),
{
    let mut s = prefix.to_owned();
    s.append("/");
    s.append(commit);
    s.append("/");
    s.append(filename);
    s.append(".tar.xz");
    proof {
        assert(s@ =~= spec_artifact_url(prefix@, commit@, filename@));
    }
    s
}

/// Spec of [`metadata_url`]: `{prefix}/{commit}/package-version`.
pub open spec fn spec_metadata_url(prefix: Seq<char>, commit: Seq<char>) -> Seq<char> {
    prefix + "/"@ + commit + "/package-version"@
}

/// The URL of the commit's channel metadata file.
pub fn metadata_url(prefix: &str, commit: &str) -> (r: String)
    ensures
        r@ == spec_metadata_url(prefix@, commit@),
{
    let mut s = prefix.to_owned();
    s.append("/");
    s.append(commit);
    s.append("/package-version");
    proof {
        assert(s@ =~= spec_metadata_url(prefix@, commit@));
    }
    s
}

/// One archive to download: the component it belongs to, the target it
/// was built for (the fetch's diagnostic context), and its URL.
pub struct DownloadItem {
    pub component: String,
    pub target: String,
    pub url: String,
}

/// Model of a [`DownloadItem`].
#[verifier::ext_equal]
pub struct ItemModel {
    pub component: Seq<char>,
    pub target: Seq<char>,
    pub url: Seq<char>,
}

impl View for DownloadItem {
    type V = ItemModel;

    open spec fn view(&self) -> ItemModel {
        ItemModel { component: self.component@, target: self.target@, url: self.url@ }
    }
}

/// The download of `component`, built for `target`, of the given commit
/// and channel.
pub open spec fn spec_download_item(
    prefix: Seq<char>,
    commit: Seq<char>,
    channel: Channel,
    target: Seq<char>,
    component: Seq<char>,
) -> ItemModel {
    ItemModel {
        component: component,
        target: target,
        url: spec_artifact_url(
            prefix,
            commit,
            spec_component_filename(component, channel, target),
        ),
    }
}

/// Builds one [`DownloadItem`].
pub fn download_item(
    prefix: &str,
    commit: &str,
    channel: Channel,
    target: &str,
    component: &str,
) -> (r: DownloadItem)
    ensures
        r@ == spec_download_item(prefix@, commit@, channel, target@, component@),
{
    let filename = component_filename(component, channel, target);
    let url = artifact_url(prefix, commit, filename.as_str());
    DownloadItem { component: component.to_owned(), target: target.to_owned(), url }
}

/// The first occurrences of `s`\'s elements, in order: later duplicates
/// dropped.
pub open spec fn spec_unique(s: Seq<Seq<char>>) -> Seq<Seq<char>>
    decreases s.len(),
{
    if s.len() == 0 {
        Seq::empty()
    } else {
        let prev = spec_unique(s.drop_last());
        if prev.contains(s.last()) {
            prev
        } else {
            prev.push(s.last())
        }
    }
}

/// The components one toolchain fetches, once each: the implicit
/// compiler component first, then the requested components in order,
/// first occurrences only.
pub open spec fn spec_fetched_components(components: Seq<Seq<char>>) -> Seq<Seq<char>> {
    spec_unique(seq!["rustc"@] + components)
}

/// The targets the standard library is fetched for — one fetch per
/// distinct target of the extra targets together with the host: the
/// extra targets in order, the host last unless it is already among
/// them.
pub open spec fn spec_std_targets(extra_targets: Seq<Seq<char>>, host: Seq<char>) -> Seq<
    Seq<char>,
> {
    spec_unique(extra_targets + seq![host])
}

/// The ordered downloads of one resolved toolchain: the compiler
/// component first, then the requested components, then the standard
/// library once per distinct target of the extra targets together with
/// the host (always included) — every component and target fetched once
/// each, later duplicates dropped.
pub fn download_plan(prefix: &str, toolchain: &ResolvedToolchain) -> (r: Vec<DownloadItem>)
    requires
        toolchain.wf(),
    ensures
        r@.len() == spec_fetched_components(toolchain.request.components.deep_view()).len()
            + spec_std_targets(
            toolchain.request.extra_targets.deep_view(),
            toolchain.request.host_target@,
        ).len(),
        forall|k: int|
            0 <= k < spec_fetched_components(toolchain.request.components.deep_view()).len()
                ==> r@[k]@ == spec_download_item(
                prefix@,
                toolchain.request.commit@,
                toolchain.channel,
                toolchain.request.host_target@,
                #[trigger] spec_fetched_components(toolchain.request.components.deep_view())[k],
            ),
        forall|k: int|
            0 <= k < spec_std_targets(
                toolchain.request.extra_targets.deep_view(),
                toolchain.request.host_target@,
            ).len() ==> r@[spec_fetched_components(toolchain.request.components.deep_view()).len()
                + k]@ == spec_download_item(
                prefix@,
                toolchain.request.commit@,
                toolchain.channel,
                #[trigger] spec_std_targets(
                    toolchain.request.extra_targets.deep_view(),
                    toolchain.request.host_target@,
                )[k],
                "rust-std"@,
            ),
{
    let commit = toolchain.request.commit.as_str();
    let host = toolchain.request.host_target.as_str();
    let channel = toolchain.channel;
    let ghost comps_in = toolchain.request.components.deep_view();
    let ghost extras_in = toolchain.request.extra_targets.deep_view();

    // the distinct components to fetch
    let mut comps: Vec<String> = Vec::new();
    comps.push("rustc".to_owned());
    proof {
        let c0 = seq!["rustc"@] + comps_in.take(0);
        assert(c0 =~= seq!["rustc"@]);
        assert(c0.drop_last() =~= Seq::<Seq<char>>::empty());
        assert(spec_unique(c0.drop_last()) =~= Seq::<Seq<char>>::empty());
        assert(spec_unique(c0) =~~= seq!["rustc"@]);
        assert(comps.deep_view() =~~= spec_unique(seq!["rustc"@] + comps_in.take(0)));
    }
    let nc = toolchain.request.components.len();
    let mut i: usize = 0;
    while i < nc
        invariant
            0 <= i <= nc,
            nc == comps_in.len(),
            comps_in == toolchain.request.components.deep_view(),
            comps_in.len() == toolchain.request.components@.len(),
            comps.deep_view() == spec_unique(seq!["rustc"@] + comps_in.take(i as int)),
        decreases nc - i,
    {
        proof {
            assert(comps_in[i as int] == toolchain.request.components@[i as int]@);
            assert((seq!["rustc"@] + comps_in.take(i + 1)).drop_last() =~= seq!["rustc"@]
                + comps_in.take(i as int));
            assert((seq!["rustc"@] + comps_in.take(i + 1)).last() == comps_in[i as int]);
        }
        let c = &toolchain.request.components[i];
        if !contains_str(&comps, c.as_str()) {
            comps.push(c.clone());
            proof {
                assert(comps.deep_view() =~~= spec_unique(seq!["rustc"@] + comps_in.take(i + 1)));
            }
        } else {
            proof {
                assert(comps.deep_view() =~~= spec_unique(seq!["rustc"@] + comps_in.take(i + 1)));
            }
        }
        i += 1;
    }
    proof {
        assert(comps_in.take(nc as int) =~= comps_in);
    }

    // the distinct standard-library targets
    let mut targs: Vec<String> = Vec::new();
    proof {
        assert(targs.deep_view() =~~= spec_unique(extras_in.take(0)));
    }
    let nt = toolchain.request.extra_targets.len();
    let mut j: usize = 0;
    while j < nt
        invariant
            0 <= j <= nt,
            nt == extras_in.len(),
            extras_in == toolchain.request.extra_targets.deep_view(),
            extras_in.len() == toolchain.request.extra_targets@.len(),
            targs.deep_view() == spec_unique(extras_in.take(j as int)),
        decreases nt - j,
    {
        proof {
            assert(extras_in[j as int] == toolchain.request.extra_targets@[j as int]@);
            assert(extras_in.take(j + 1).drop_last() =~= extras_in.take(j as int));
            assert(extras_in.take(j + 1).last() == extras_in[j as int]);
        }
        let t = &toolchain.request.extra_targets[j];
        if !contains_str(&targs, t.as_str()) {
            targs.push(t.clone());
            proof {
                assert(targs.deep_view() =~~= spec_unique(extras_in.take(j + 1)));
            }
        } else {
            proof {
                assert(targs.deep_view() =~~= spec_unique(extras_in.take(j + 1)));
            }
        }
        j += 1;
    }
    proof {
        assert(extras_in.take(nt as int) =~= extras_in);
        assert((extras_in + seq![host@]).drop_last() =~= extras_in);
        assert((extras_in + seq![host@]).last() == host@);
    }
    if !contains_str(&targs, host) {
        targs.push(host.to_owned());
        proof {
            assert(targs.deep_view() =~~= spec_std_targets(extras_in, host@));
        }
    } else {
        proof {
            assert(targs.deep_view() =~~= spec_std_targets(extras_in, host@));
        }
    }

    // one download per distinct component, then per distinct target
    let ghost comps_u = spec_fetched_components(comps_in);
    let ghost targs_u = spec_std_targets(extras_in, host@);
    let mut plan: Vec<DownloadItem> = Vec::new();
    let ncu = comps.len();
    let mut k: usize = 0;
    while k < ncu
        invariant
            0 <= k <= ncu,
            ncu == comps@.len(),
            comps.deep_view() == comps_u,
            comps_u.len() == comps@.len(),
            plan@.len() == k,
            forall|q: int|
                0 <= q < k ==> plan@[q]@ == spec_download_item(
                    prefix@,
                    commit@,
                    channel,
                    host@,
                    #[trigger] comps_u[q],
                ),
        decreases ncu - k,
    {
        proof {
            assert(comps_u[k as int] == comps@[k as int]@);
        }
        let item = download_item(prefix, commit, channel, host, comps[k].as_str());
        plan.push(item);
        k += 1;
    }
    let ntu = targs.len();
    let mut q: usize = 0;
    while q < ntu
        invariant
            0 <= q <= ntu,
            ntu == targs@.len(),
            targs.deep_view() == targs_u,
            targs_u.len() == targs@.len(),
            comps_u.len() == ncu,
            plan@.len() == ncu + q,
            forall|p: int|
                0 <= p < ncu ==> plan@[p]@ == spec_download_item(
                    prefix@,
                    commit@,
                    channel,
                    host@,
                    #[trigger] comps_u[p],
                ),
            forall|p: int|
                0 <= p < q ==> plan@[ncu + p]@ == spec_download_item(
                    prefix@,
                    commit@,
                    channel,
                    #[trigger] targs_u[p],
                    "rust-std"@,
                ),
        decreases ntu - q,
    {
        proof {
            assert(targs_u[q as int] == targs@[q as int]@);
        }
        let item = download_item(prefix, commit, channel, targs[q].as_str(), "rust-std");
        plan.push(item);
        q += 1;
    }
    plan
}

/// The decision taken against the existing destination, before any
/// channel probe or fetch.
#[derive(Clone, Copy, Debug, PartialEq, Eq, Structural)]
pub enum PreCheck {
    /// The destination exists and force is off: report "already
    /// installed" and do nothing else — an idempotent no-op.
    AlreadyInstalled,
    /// The destination exists, force is on, and this is a real run:
    /// remove the existing directory, then install.
    RemoveThenInstall,
    /// Install without removing anything (also every dry-run path: a
    /// dry run never removes).
    Install,
}

/// Spec of [`install_precheck`].
pub open spec fn spec_precheck(dest_exists: bool, force: bool, dry_run: bool) -> PreCheck {
    if dest_exists && !force {
        PreCheck::AlreadyInstalled
    } else if dest_exists && force && !dry_run {
        PreCheck::RemoveThenInstall
    } else {
        PreCheck::Install
    }
}

/// Decides what to do about an existing destination directory.
pub fn install_precheck(dest_exists: bool, force: bool, dry_run: bool) -> (r: PreCheck)
    ensures
        r == spec_precheck(dest_exists, force, dry_run),
{
    if dest_exists && !force {
        PreCheck::AlreadyInstalled
    } else if dest_exists && force && !dry_run {
        PreCheck::RemoveThenInstall
    } else {
        PreCheck::Install
    }
}

/// Everything one installation does to the world outside its staging
/// directory, as a function of the pre-check inputs, the presence of a
/// channel override, and the download plan.
#[verifier::ext_equal]
pub struct InstallModel {
    /// Channel detection probes are issued.
    pub probes_channel: bool,
    /// The existing destination directory is removed first.
    pub removes_existing: bool,
    /// The URLs fetched over the network, in order.
    pub fetch_urls: Seq<Seq<char>>,
    /// The staging directory is renamed into the toolchain store.
    pub publishes: bool,
}

/// Every download of the plan succeeded.
pub open spec fn spec_all_fetches_ok(outcomes: Seq<bool>) -> bool {
    forall|i: int| 0 <= i < outcomes.len() ==> outcomes[i]
}

/// How many downloads a real run requests, the plan being taken in order
/// and the first failure aborting the installation at once: the prefix
/// through the first failed fetch, or the whole plan where none fails.
pub open spec fn spec_fetch_attempts(outcomes: Seq<bool>) -> int
    decreases outcomes.len(),
{
    if outcomes.len() == 0 {
        0
    } else if outcomes[0] {
        1 + spec_fetch_attempts(outcomes.drop_first())
    } else {
        1
    }
}

/// The URLs of a plan's downloads, in order.
pub open spec fn spec_plan_urls(plan: Seq<ItemModel>) -> Seq<Seq<char>> {
    plan.map_values(|it: ItemModel| it.url)
}

/// The model of an installation, over the pre-check inputs, the presence
/// of a channel override, the download plan, and one success flag per
/// planned download: nothing at all when the destination is already
/// installed; otherwise probes only without an override, removal only
/// under force outside a dry run, downloads only on a real run and only
/// up to and including the first failure, and publication — the atomic
/// rename of the staging directory into the store — only on a real run
/// whose every download succeeded.
pub open spec fn spec_install_model(
    dest_exists: bool,
    force: bool,
    dry_run: bool,
    has_override: bool,
    plan: Seq<ItemModel>,
    fetch_outcomes: Seq<bool>,
) -> InstallModel {
    if spec_precheck(dest_exists, force, dry_run) is AlreadyInstalled {
        InstallModel {
            probes_channel: false,
            removes_existing: false,
            fetch_urls: Seq::empty(),
            publishes: false,
        }
    } else {
        InstallModel {
            probes_channel: !has_override,
            removes_existing: spec_precheck(dest_exists, force, dry_run) is RemoveThenInstall,
            fetch_urls: if dry_run {
                Seq::empty()
            } else {
                spec_plan_urls(plan.take(spec_fetch_attempts(fetch_outcomes)))
            },
            publishes: !dry_run && spec_all_fetches_ok(fetch_outcomes),
        }
    }
}

/// With force off and the destination already present, installation is
/// the "already installed" no-op: zero filesystem mutation and zero
/// network calls.
pub proof fn lemma_already_installed_is_inert(
    dry_run: bool,
    has_override: bool,
    plan: Seq<ItemModel>,
    fetch_outcomes: Seq<bool>,
)
    ensures
        spec_precheck(true, false, dry_run) == PreCheck::AlreadyInstalled,
        spec_install_model(true, false, dry_run, has_override, plan, fetch_outcomes)
            == (InstallModel {
            probes_channel: false,
            removes_existing: false,
            fetch_urls: Seq::<Seq<char>>::empty(),
            publishes: false,
        }),
{
}

/// A dry run performs zero filesystem mutation — even where the
/// destination exists and force would otherwise remove it — and fetches
/// nothing: it only reports the URLs of its download plan.
pub proof fn lemma_dry_run_mutates_nothing(
    dest_exists: bool,
    force: bool,
    has_override: bool,
    plan: Seq<ItemModel>,
    fetch_outcomes: Seq<bool>,
)
    ensures
        !spec_install_model(
            dest_exists,
            force,
            true,
            has_override,
            plan,
            fetch_outcomes,
        ).removes_existing,
        !spec_install_model(dest_exists, force, true, has_override, plan, fetch_outcomes).publishes,
        spec_install_model(dest_exists, force, true, has_override, plan, fetch_outcomes).fetch_urls
            == Seq::<Seq<char>>::empty(),
{
}

proof fn lemma_fetch_attempts_at_first_failure(outcomes: Seq<bool>, i: int)
    requires
        0 <= i < outcomes.len(),
        !outcomes[i],
        forall|j: int| 0 <= j < i ==> outcomes[j],
    ensures
        spec_fetch_attempts(outcomes) == i + 1,
    decreases i,
{
    if i > 0 {
        let rest = outcomes.drop_first();
        assert(forall|j: int| 0 <= j < i - 1 ==> #[trigger] rest[j] == outcomes[j + 1]);
        assert(!rest[i - 1]);
        lemma_fetch_attempts_at_first_failure(rest, i - 1);
    }
}

proof fn lemma_fetch_attempts_all_ok(outcomes: Seq<bool>)
    requires
        spec_all_fetches_ok(outcomes),
    ensures
        spec_fetch_attempts(outcomes) == outcomes.len(),
    decreases outcomes.len(),
{
    if outcomes.len() > 0 {
        let rest = outcomes.drop_first();
        assert(forall|j: int| 0 <= j < rest.len() ==> #[trigger] rest[j] == outcomes[j + 1]);
        lemma_fetch_attempts_all_ok(rest);
    }
}

/// A failed download aborts that toolchain\'s installation at once: on a
/// real run whose download `i` is the first to fail, only the plan\'s
/// first `i + 1` downloads are ever requested — the failing one and
/// nothing after it — and the staging directory is never renamed into
/// the toolchain store.
pub proof fn lemma_fetch_failure_aborts_install(
    dest_exists: bool,
    force: bool,
    has_override: bool,
    plan: Seq<ItemModel>,
    fetch_outcomes: Seq<bool>,
    i: int,
)
    requires
        !(dest_exists && !force),
        fetch_outcomes.len() == plan.len(),
        0 <= i < fetch_outcomes.len(),
        !fetch_outcomes[i],
        forall|j: int| 0 <= j < i ==> fetch_outcomes[j],
    ensures
        !spec_install_model(dest_exists, force, false, has_override, plan, fetch_outcomes).publishes,
        spec_install_model(dest_exists, force, false, has_override, plan, fetch_outcomes).fetch_urls
            == spec_plan_urls(plan.take(i + 1)),
{
    lemma_fetch_attempts_at_first_failure(fetch_outcomes, i);
}

/// The staging directory is renamed into the toolchain store exactly
/// when the run is real and every one of its downloads succeeded — and
/// then every download of the plan was requested, in order.
pub proof fn lemma_publish_needs_every_fetch(
    dest_exists: bool,
    force: bool,
    dry_run: bool,
    has_override: bool,
    plan: Seq<ItemModel>,
    fetch_outcomes: Seq<bool>,
)
    requires
        !(dest_exists && !force),
        fetch_outcomes.len() == plan.len(),
    ensures
        spec_install_model(dest_exists, force, dry_run, has_override, plan, fetch_outcomes).publishes
            <==> (!dry_run && spec_all_fetches_ok(fetch_outcomes)),
        (!dry_run && spec_all_fetches_ok(fetch_outcomes)) ==> spec_install_model(
            dest_exists,
            force,
            dry_run,
            has_override,
            plan,
            fetch_outcomes,
        ).fetch_urls == spec_plan_urls(plan),
{
    if !dry_run && spec_all_fetches_ok(fetch_outcomes) {
        lemma_fetch_attempts_all_ok(fetch_outcomes);
        assert(plan.take(plan.len() as int) =~= plan);
    }
}

/// Why one download failed: either the structured "missing component"
/// error carrying its diagnostic context, or a generic transport failure.
#[derive(Clone, Debug, PartialEq, Eq)]
pub enum FetchError {
    /// 404: the component does not exist on this channel for this target.
    MissingComponent { component: String, commit: String, channel: Channel, target: String },
    /// Any other non-200 status.
    HttpStatus { status: u16, url: String },
}

/// Names the failure of one download from its HTTP status: a 404 is the
/// structured "missing component" error with the four context fields, any
/// other non-200 status the generic transport error with status and URL.
pub fn fetch_failure(
    status: u16,
    component: &str,
    commit: &str,
    channel: Channel,
    target: &str,
    url: &str,
) -> (r: Option<FetchError>)
    ensures
        (r is None) == (status == 200),
        status == 404 ==> (r matches Some(
            FetchError::MissingComponent { component: c, commit: cm, channel: ch, target: t },
        ) && c@ == component@ && cm@ == commit@ && ch == channel && t@ == target@),
        status != 200 && status != 404 ==> (r matches Some(
            FetchError::HttpStatus { status: st, url: u },
        ) && st == status && u@ == url@),
{
    if status == 200 {
        None
    } else if status == 404 {
        Some(
            FetchError::MissingComponent {
                component: component.to_owned(),
                commit: commit.to_owned(),
                channel,
                target: target.to_owned(),
            },
        )
    } else {
        Some(FetchError::HttpStatus { status, url: url.to_owned() })
    }
}

} // verus!
