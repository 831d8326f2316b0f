//! Updates of installed runtimes: which builds belong to one line, which is newer, and what is
//! offered.
use vstd::prelude::*;
use vstd::string::*;

use crate::duplicate::{optional, views, Duplicate};
use crate::order::{compare_i64, compare_numbers, compare_u64, number_order, numbers_order, text_order, Order};
use crate::runtimes::{
    option_list, AcquisitionView, AvailableRuntime, AvailableView, BuildView, InstalledRuntime,
    PackErrorView, PlanView, RuntimeAcquisitionMethod, RuntimeAcquisitionPlan, RuntimeIdentity,
    RuntimeIdentityView, RuntimePackError, RuntimeReleaseChannel, RuntimeSourceBuildPlan,
    RuntimeSourceBuildProvenance, RuntimeVariantUpdateIdentity, RuntimeView, VariantView,
};
use crate::text::{
    begins, cat2, cat4, cat7, compare_text, decimal, decimal_text, same, same_list, same_optional,
    starts_with,
};
use crate::versions::{compare_versions, release_numbers, release_parts, version_order};

verus! {

/// Whether two identities are of q27's own releases and source builds, which follow each other.
pub open spec fn q27_family(left: RuntimeIdentityView, right: RuntimeIdentityView) -> bool {
    q27_member(left) && q27_member(right)
}

pub open spec fn q27_member(identity: RuntimeIdentityView) -> bool {
    &&& identity.engine_id == "q27"@
    &&& identity.package.provider_id == "q27-official-github"@
    &&& identity.package.repository == Some("signalnine/q27"@)
    &&& identity.package_family == "q27-official-release"@ || begins(
        identity.package_family,
        "q27-official-source-q27-upstream-make-"@,
    )
}

/// Whether a q27 build is of a release that is tagged with its version.
pub open spec fn q27_release(identity: RuntimeIdentityView) -> bool {
    q27_member(identity) && identity.package.release_tag == Some("v"@ + identity.version)
}

/// Whether an optional text is there and is this one.
fn is_text(text: &Option<String>, expected: &str) -> (result: bool)
    ensures
        result == (optional(*text) == Some(expected@)),
{
    match text {
        Some(text) => same(text.as_str(), expected),
        None => false,
    }
}

fn is_q27_member(identity: &RuntimeIdentity) -> (result: bool)
    ensures
        result == q27_member(identity@),
{
    same(identity.engine_id.as_str(), "q27") && same(
        identity.package.provider_id.as_str(),
        "q27-official-github",
    ) && is_text(&identity.package.repository, "signalnine/q27") && (same(
        identity.package_family.as_str(),
        "q27-official-release",
    ) || starts_with(identity.package_family.as_str(), "q27-official-source-q27-upstream-make-"))
}

pub fn q27_logical_update_family(left: &RuntimeIdentity, right: &RuntimeIdentity) -> (result: bool)
    ensures
        result == q27_family(left@, right@),
{
    is_q27_member(left) && is_q27_member(right)
}

pub fn q27_semantic_release_identity(identity: &RuntimeIdentity) -> (result: bool)
    ensures
        result == q27_release(identity@),
{
    is_q27_member(identity) && is_text(
        &identity.package.release_tag,
        cat2("v", identity.version.as_str()).as_str(),
    )
}

/// Whether one build can follow another: the same engine, package family, platform, accelerator,
/// function and provider.
pub open spec fn same_line(
    identity: RuntimeIdentityView,
    variant: VariantView,
    candidate: RuntimeIdentityView,
    candidate_variant: VariantView,
) -> bool {
    &&& candidate.engine_id == identity.engine_id
    &&& candidate.package_family == identity.package_family || q27_family(identity, candidate)
    &&& candidate.platform == identity.platform
    &&& candidate.architecture == identity.architecture
    &&& candidate.accelerator == identity.accelerator
    &&& candidate_variant.functional_variant == variant.functional_variant
    &&& candidate.package.provider_id == identity.package.provider_id
}

pub fn same_runtime_update_line(
    identity: &RuntimeIdentity,
    variant: &RuntimeVariantUpdateIdentity,
    candidate: &RuntimeIdentity,
    candidate_variant: &RuntimeVariantUpdateIdentity,
) -> (result: bool)
    ensures
        result == same_line(identity@, variant@, candidate@, candidate_variant@),
{
    same(candidate.engine_id.as_str(), identity.engine_id.as_str()) && (same(
        candidate.package_family.as_str(),
        identity.package_family.as_str(),
    ) || q27_logical_update_family(identity, candidate)) && same(
        candidate.platform.as_str(),
        identity.platform.as_str(),
    ) && same(candidate.architecture.as_str(), identity.architecture.as_str()) && same(
        candidate.accelerator.as_str(),
        identity.accelerator.as_str(),
    ) && same(
        candidate_variant.functional_variant.as_str(),
        variant.functional_variant.as_str(),
    ) && same(candidate.package.provider_id.as_str(), identity.package.provider_id.as_str())
}

/// Whether a published runtime is on the line of an installed one.
pub open spec fn on_line(runtime: RuntimeView, candidate: AvailableView) -> bool {
    same_line(
        runtime.manifest.identity,
        runtime.variant(true),
        candidate.identity,
        candidate.variant(true),
    )
}

pub fn same_update_line(runtime: &InstalledRuntime, candidate: &AvailableRuntime) -> (result: bool)
    ensures
        result == on_line(runtime@, candidate@),
{
    same_runtime_update_line(
        &runtime.manifest.identity,
        &runtime.update_variant(true),
        &candidate.identity,
        &candidate.update_variant(true),
    )
}

/// A line is shared: what is on a build's line has that build on its own, and every build is on its
/// own line.
pub proof fn law_update_lines_are_shared(
    a: RuntimeIdentityView,
    a_variant: VariantView,
    b: RuntimeIdentityView,
    b_variant: VariantView,
)
    ensures
        same_line(a, a_variant, b, b_variant) == same_line(b, b_variant, a, a_variant),
        same_line(a, a_variant, a, a_variant),
{
}

/// How two generations compare, where both are known.
pub open spec fn generation_order(left: Option<u64>, right: Option<u64>) -> Order {
    match (left, right) {
        (Some(left), Some(right)) => number_order(left as int, right as int),
        _ => Order::Equal,
    }
}

fn compare_generations(left: Option<u64>, right: Option<u64>) -> (result: Order)
    ensures
        result == generation_order(left, right),
{
    match (left, right) {
        (Some(left), Some(right)) => compare_u64(left, right),
        _ => Order::Equal,
    }
}

/// How the recipe of a candidate compares with that of an installed build, where both serve the same
/// function and both have a generation.
pub open spec fn recipe_order(installed: VariantView, candidate: VariantView) -> Order {
    if installed.functional_variant != candidate.functional_variant {
        Order::Equal
    } else {
        generation_order(candidate.source_recipe_generation, installed.source_recipe_generation)
    }
}

pub fn source_recipe_ordering(
    installed: &RuntimeVariantUpdateIdentity,
    candidate: &RuntimeVariantUpdateIdentity,
) -> (result: Order)
    ensures
        result == recipe_order(installed@, candidate@),
{
    if !same(installed.functional_variant.as_str(), candidate.functional_variant.as_str()) {
        return Order::Equal;
    }
    compare_generations(candidate.source_recipe_generation, installed.source_recipe_generation)
}

/// How two times of publication compare, none being before any.
pub open spec fn time_order(left: Option<i64>, right: Option<i64>) -> Order {
    match (left, right) {
        (Some(left), Some(right)) => number_order(left as int, right as int),
        (Some(_), None) => Order::Greater,
        (None, Some(_)) => Order::Less,
        (None, None) => Order::Equal,
    }
}

pub fn compare_times(left: Option<i64>, right: Option<i64>) -> (result: Order)
    ensures
        result == time_order(left, right),
{
    match (left, right) {
        (Some(left), Some(right)) => compare_i64(left, right),
        (Some(_), None) => Order::Greater,
        (None, Some(_)) => Order::Less,
        (None, None) => Order::Equal,
    }
}

/// How two candidates for a build from source compare.
pub open spec fn source_candidate_order(
    installed: RuntimeIdentityView,
    left: AvailableView,
    right: AvailableView,
) -> Order {
    if q27_release(installed) && q27_release(left.identity) && q27_release(right.identity) {
        version_order(left.identity.version, right.identity.version).or(
            time_order(left.published_at_unix, right.published_at_unix),
        )
    } else {
        recipe_order(right.variant(true), left.variant(true)).or(
            time_order(left.published_at_unix, right.published_at_unix),
        )
    }
}

pub fn compare_source_update_candidates(
    installed: &RuntimeIdentity,
    left: &AvailableRuntime,
    right: &AvailableRuntime,
) -> (result: Order)
    ensures
        result == source_candidate_order(installed@, left@, right@),
{
    let published = compare_times(left.published_at_unix, right.published_at_unix);
    if q27_semantic_release_identity(installed) && q27_semantic_release_identity(&left.identity)
        && q27_semantic_release_identity(&right.identity) {
        return compare_versions(
            left.identity.version.as_str(),
            right.identity.version.as_str(),
        ).and_next(published);
    }
    source_recipe_ordering(&right.update_variant(true), &left.update_variant(true)).and_next(
        published,
    )
}

/// Which updates a runtime follows.
#[derive(Debug, Clone, Copy, PartialEq, Eq, Structural)]
pub enum RuntimeUpdatePreference {
    Stable,
    Latest,
    Pinned,
}

impl View for RuntimeUpdatePreference {
    type V = RuntimeUpdatePreference;

    open spec fn view(&self) -> RuntimeUpdatePreference {
        *self
    }
}

impl Duplicate for RuntimeUpdatePreference {
    fn duplicate(&self) -> (result: RuntimeUpdatePreference) {
        *self
    }
}

impl RuntimeUpdatePreference {
    pub open spec fn name(self) -> Seq<char> {
        match self {
            RuntimeUpdatePreference::Stable => "Stable"@,
            RuntimeUpdatePreference::Latest => "Latest"@,
            RuntimeUpdatePreference::Pinned => "Pinned"@,
        }
    }

    pub fn shown(self) -> (result: &'static str)
        ensures
            result@ == self.name(),
    {
        match self {
            RuntimeUpdatePreference::Stable => "Stable",
            RuntimeUpdatePreference::Latest => "Latest",
            RuntimeUpdatePreference::Pinned => "Pinned",
        }
    }
}

/// What is known of a newer build.
#[derive(Debug)]
pub enum RuntimeUpdateState {
    Unmanaged,
    Current,
    NewerCompatibleVersion { runtime_id: String, version: String },
    Pinned { newer_runtime_id: Option<String>, newer_version: Option<String> },
    NoLongerPublished,
    CatalogUnavailable(String),
    ProviderError(String),
    ChannelUnavailable { preference: RuntimeUpdatePreference },
}

#[verifier::ext_equal]
pub enum UpdateView {
    Unmanaged,
    Current,
    NewerCompatibleVersion { runtime_id: Seq<char>, version: Seq<char> },
    Pinned { newer_runtime_id: Option<Seq<char>>, newer_version: Option<Seq<char>> },
    NoLongerPublished,
    CatalogUnavailable(Seq<char>),
    ProviderError(Seq<char>),
    ChannelUnavailable { preference: RuntimeUpdatePreference },
}

impl View for RuntimeUpdateState {
    type V = UpdateView;

    open spec fn view(&self) -> UpdateView {
        match self {
            RuntimeUpdateState::Unmanaged => UpdateView::Unmanaged,
            RuntimeUpdateState::Current => UpdateView::Current,
            RuntimeUpdateState::NewerCompatibleVersion { runtime_id, version } => {
                UpdateView::NewerCompatibleVersion { runtime_id: runtime_id@, version: version@ }
            },
            RuntimeUpdateState::Pinned { newer_runtime_id, newer_version } => UpdateView::Pinned {
                newer_runtime_id: optional(*newer_runtime_id),
                newer_version: optional(*newer_version),
            },
            RuntimeUpdateState::NoLongerPublished => UpdateView::NoLongerPublished,
            RuntimeUpdateState::CatalogUnavailable(message) => UpdateView::CatalogUnavailable(
                message@,
            ),
            RuntimeUpdateState::ProviderError(message) => UpdateView::ProviderError(message@),
            RuntimeUpdateState::ChannelUnavailable { preference } => {
                UpdateView::ChannelUnavailable { preference: *preference }
            },
        }
    }
}

/// What is told of a newer build: an offer, or, where the runtime is pinned, only the fact.
pub open spec fn offered(
    preference: RuntimeUpdatePreference,
    runtime_id: Seq<char>,
    version: Seq<char>,
) -> UpdateView {
    if preference == RuntimeUpdatePreference::Pinned {
        UpdateView::Pinned { newer_runtime_id: Some(runtime_id), newer_version: Some(version) }
    } else {
        UpdateView::NewerCompatibleVersion { runtime_id, version }
    }
}

/// What is told where no build is newer.
pub open spec fn settled(preference: RuntimeUpdatePreference) -> UpdateView {
    if preference == RuntimeUpdatePreference::Pinned {
        UpdateView::Pinned { newer_runtime_id: None, newer_version: None }
    } else {
        UpdateView::Current
    }
}

fn offer(preference: RuntimeUpdatePreference, runtime_id: &str, version: &str) -> (result:
    RuntimeUpdateState)
    ensures
        result@ == offered(preference, runtime_id@, version@),
{
    match preference {
        RuntimeUpdatePreference::Pinned => RuntimeUpdateState::Pinned {
            newer_runtime_id: Some(runtime_id.to_owned()),
            newer_version: Some(version.to_owned()),
        },
        _ => RuntimeUpdateState::NewerCompatibleVersion {
            runtime_id: runtime_id.to_owned(),
            version: version.to_owned(),
        },
    }
}

fn settle(preference: RuntimeUpdatePreference) -> (result: RuntimeUpdateState)
    ensures
        result@ == settled(preference),
{
    match preference {
        RuntimeUpdatePreference::Pinned => RuntimeUpdateState::Pinned {
            newer_runtime_id: None,
            newer_version: None,
        },
        _ => RuntimeUpdateState::Current,
    }
}

pub open spec fn semantic_state(
    preference: RuntimeUpdatePreference,
    installed: RuntimeIdentityView,
    candidate: AvailableView,
) -> UpdateView {
    if version_order(candidate.identity.version, installed.version) == Order::Greater {
        offered(preference, candidate.runtime_id, candidate.identity.version)
    } else {
        settled(preference)
    }
}

pub fn semantic_release_update_state(
    preference: RuntimeUpdatePreference,
    installed: &RuntimeIdentity,
    candidate: &AvailableRuntime,
) -> (result: RuntimeUpdateState)
    ensures
        result@ == semantic_state(preference, installed@, candidate@),
{
    match compare_versions(candidate.identity.version.as_str(), installed.version.as_str()) {
        Order::Greater => offer(
            preference,
            candidate.runtime_id.as_str(),
            candidate.identity.version.as_str(),
        ),
        _ => settle(preference),
    }
}

#[derive(Debug, Clone, Copy, PartialEq, Eq, Structural)]
pub enum GitHubComparisonStatus {
    Ahead,
    Behind,
    Diverged,
    Identical,
}

impl GitHubComparisonStatus {
    pub open spec fn name(self) -> Seq<char> {
        match self {
            GitHubComparisonStatus::Ahead => "Ahead"@,
            GitHubComparisonStatus::Behind => "Behind"@,
            GitHubComparisonStatus::Diverged => "Diverged"@,
            GitHubComparisonStatus::Identical => "Identical"@,
        }
    }

    pub fn shown(self) -> (result: &'static str)
        ensures
            result@ == self.name(),
    {
        match self {
            GitHubComparisonStatus::Ahead => "Ahead",
            GitHubComparisonStatus::Behind => "Behind",
            GitHubComparisonStatus::Diverged => "Diverged",
            GitHubComparisonStatus::Identical => "Identical",
        }
    }
}

/// How the history of a candidate's commit relates to that of the installed one.
#[derive(Debug, Clone, Copy, PartialEq, Eq, Structural)]
pub struct GitHubCompare {
    pub status: GitHubComparisonStatus,
    pub ahead_by: u64,
    pub behind_by: u64,
}

impl GitHubCompare {
    /// The same commit.
    pub open spec fn identical(self) -> bool {
        self.status == GitHubComparisonStatus::Identical && self.ahead_by == 0 && self.behind_by
            == 0
    }

    /// A commit that has the installed one among its ancestors.
    pub open spec fn descends(self) -> bool {
        self.status == GitHubComparisonStatus::Ahead && self.ahead_by > 0 && self.behind_by == 0
    }
}

pub open spec fn history_state(
    preference: RuntimeUpdatePreference,
    runtime_id: Seq<char>,
    version: Seq<char>,
    comparison: GitHubCompare,
    recipe: Order,
) -> UpdateView {
    if comparison.descends() || comparison.identical() && recipe == Order::Greater {
        offered(preference, runtime_id, version)
    } else if comparison.identical() {
        settled(preference)
    } else {
        UpdateView::ProviderError(
            "current source HEAD is not a strict descendant of the installed commit (GitHub comparison: "@
                + comparison.status.name() + ", ahead "@ + decimal(comparison.ahead_by as nat)
                + ", behind "@ + decimal(comparison.behind_by as nat) + ")"@,
        )
    }
}

pub fn source_history_update_state(
    preference: RuntimeUpdatePreference,
    candidate_runtime_id: &str,
    candidate_version: &str,
    comparison: &GitHubCompare,
    recipe_ordering: Order,
) -> (result: RuntimeUpdateState)
    ensures
        result@ == history_state(
            preference,
            candidate_runtime_id@,
            candidate_version@,
            *comparison,
            recipe_ordering,
        ),
{
    match comparison.status {
        GitHubComparisonStatus::Identical if comparison.ahead_by == 0 && comparison.behind_by
            == 0 => {
            match recipe_ordering {
                Order::Greater => offer(preference, candidate_runtime_id, candidate_version),
                _ => settle(preference),
            }
        },
        GitHubComparisonStatus::Ahead if comparison.ahead_by > 0 && comparison.behind_by == 0 => {
            offer(preference, candidate_runtime_id, candidate_version)
        },
        _ => RuntimeUpdateState::ProviderError(
            cat7(
                "current source HEAD is not a strict descendant of the installed commit (GitHub comparison: ",
                comparison.status.shown(),
                ", ahead ",
                decimal_text(comparison.ahead_by).as_str(),
                ", behind ",
                decimal_text(comparison.behind_by).as_str(),
                ")",
            ),
        ),
    }
}

/// A build from source is offered only where its commit descends from the installed one, or is the
/// same commit under a newer recipe; and never where the runtime is pinned.
pub proof fn law_source_offers_follow_ancestry(
    preference: RuntimeUpdatePreference,
    runtime_id: Seq<char>,
    version: Seq<char>,
    comparison: GitHubCompare,
    recipe: Order,
)
    ensures
        history_state(preference, runtime_id, version, comparison, recipe)
            is NewerCompatibleVersion <==> preference != RuntimeUpdatePreference::Pinned && (
        comparison.descends() || comparison.identical() && recipe == Order::Greater),
        comparison.status == GitHubComparisonStatus::Behind || comparison.status
            == GitHubComparisonStatus::Diverged ==> history_state(
            preference,
            runtime_id,
            version,
            comparison,
            recipe,
        ) is ProviderError,
{
}

/// A pinned runtime is told of a newer build, but it is not offered one.
pub proof fn law_pinned_is_not_offered(
    preference: RuntimeUpdatePreference,
    installed: RuntimeIdentityView,
    candidate: AvailableView,
)
    ensures
        preference == RuntimeUpdatePreference::Pinned ==> !(semantic_state(
            preference,
            installed,
            candidate,
        ) is NewerCompatibleVersion),
        semantic_state(preference, installed, candidate) is NewerCompatibleVersion
            ==> version_order(candidate.identity.version, installed.version) == Order::Greater,
{
}

/// The channel that a preference follows. A pinned runtime follows the one that it is published in.
pub open spec fn followed_channel(
    preference: RuntimeUpdatePreference,
    published: Option<AvailableView>,
) -> RuntimeReleaseChannel {
    match preference {
        RuntimeUpdatePreference::Stable => RuntimeReleaseChannel::Stable,
        RuntimeUpdatePreference::Latest => RuntimeReleaseChannel::Latest,
        RuntimeUpdatePreference::Pinned => {
            if published is Some && (!published->0.prerelease || published->0.channels.contains(
                RuntimeReleaseChannel::Stable,
            )) {
                RuntimeReleaseChannel::Stable
            } else {
                RuntimeReleaseChannel::Latest
            }
        },
    }
}

fn has_channel(channels: &Vec<RuntimeReleaseChannel>, channel: RuntimeReleaseChannel) -> (result:
    bool)
    ensures
        result == channels@.contains(channel),
{
    let mut i: usize = 0;
    while i < channels.len()
        invariant
            i <= channels.len(),
            forall|k: int| 0 <= k < i ==> channels@[k] != channel,
        decreases channels.len() - i,
    {
        if channels[i] == channel {
            return true;
        }
        i += 1;
    }
    false
}

/// The view of an optional reference.
pub open spec fn referenced<T: View>(value: Option<&T>) -> Option<T::V> {
    match value {
        Some(value) => Some(value@),
        None => None,
    }
}

pub fn update_channel_matches(
    preference: RuntimeUpdatePreference,
    published: Option<&AvailableRuntime>,
    candidate: &AvailableRuntime,
) -> (result: bool)
    ensures
        result == candidate@.channels.contains(
            followed_channel(preference, referenced(published)),
        ),
{
    let channel = match preference {
        RuntimeUpdatePreference::Stable => RuntimeReleaseChannel::Stable,
        RuntimeUpdatePreference::Latest => RuntimeReleaseChannel::Latest,
        RuntimeUpdatePreference::Pinned => match published {
            Some(published) if !published.prerelease || has_channel(
                &published.channels,
                RuntimeReleaseChannel::Stable,
            ) => RuntimeReleaseChannel::Stable,
            _ => RuntimeReleaseChannel::Latest,
        },
    };
    has_channel(&candidate.channels, channel)
}

/// How recent two installed runtimes are. Commit times rank builds from source of one line, or, for
/// the badge that spans variants, of any; versions rank the others. Hashes and identifiers settle
/// ties, but not for the badge.
pub open spec fn recency(
    left: RuntimeView,
    right: RuntimeView,
    ask_engine: bool,
    lineage_only: bool,
) -> Order {
    let (a, b) = (left.manifest, right.manifest);
    let (a_variant, b_variant) = (left.variant(ask_engine), right.variant(ask_engine));
    let line = same_line(a.identity, a_variant, b.identity, b_variant);
    let recipe = generation_order(
        a_variant.source_recipe_generation,
        b_variant.source_recipe_generation,
    );
    let line_recipe = if line {
        recipe
    } else {
        Order::Equal
    };
    if (line || lineage_only) && a.source_build is Some && b.source_build is Some {
        let (a_source, b_source) = (a.source_build->0.source, b.source_build->0.source);
        let commits = number_order(
            a_source.commit_timestamp_unix as int,
            b_source.commit_timestamp_unix as int,
        );
        if lineage_only {
            commits.or(line_recipe)
        } else {
            commits.or(text_order(a_source.commit_sha, b_source.commit_sha)).or(recipe).or(
                text_order(a.runtime_id, b.runtime_id),
            )
        }
    } else {
        version_order(a.identity.version, b.identity.version).or(line_recipe)
    }
}

pub fn compare_installed_recency_inner(
    left: &InstalledRuntime,
    right: &InstalledRuntime,
    ask_engine: bool,
    lineage_only: bool,
) -> (result: Order)
    ensures
        result == recency(left@, right@, ask_engine, lineage_only),
{
    let left_variant = left.update_variant(ask_engine);
    let right_variant = right.update_variant(ask_engine);
    let line = same_runtime_update_line(
        &left.manifest.identity,
        &left_variant,
        &right.manifest.identity,
        &right_variant,
    );
    let recipe = compare_generations(
        left_variant.source_recipe_generation,
        right_variant.source_recipe_generation,
    );
    let line_recipe = if line {
        recipe
    } else {
        Order::Equal
    };
    if line || lineage_only {
        match (&left.manifest.source_build, &right.manifest.source_build) {
            (Some(left_build), Some(right_build)) => {
                let commits = compare_i64(
                    left_build.source.commit_timestamp_unix,
                    right_build.source.commit_timestamp_unix,
                );
                if lineage_only {
                    return commits.and_next(line_recipe);
                }
                return commits.and_next(
                    compare_text(
                        left_build.source.commit_sha.as_str(),
                        right_build.source.commit_sha.as_str(),
                    ),
                ).and_next(recipe).and_next(
                    compare_text(
                        left.manifest.runtime_id.as_str(),
                        right.manifest.runtime_id.as_str(),
                    ),
                );
            },
            _ => {},
        }
    }
    compare_versions(
        left.manifest.identity.version.as_str(),
        right.manifest.identity.version.as_str(),
    ).and_next(line_recipe)
}

pub fn compare_installed_recency(
    left: &InstalledRuntime,
    right: &InstalledRuntime,
    ask_engine: bool,
) -> (result: Order)
    ensures
        result == recency(left@, right@, ask_engine, false),
{
    compare_installed_recency_inner(left, right, ask_engine, false)
}

/// How recent two installed runtimes are to the resolver: an engine speaks only for its own.
pub open spec fn resolver_recency(left: RuntimeView, right: RuntimeView) -> Order {
    recency(
        left,
        right,
        left.manifest.identity.engine_id == right.manifest.identity.engine_id,
        false,
    )
}

pub fn compare_installed_recency_with_registry(
    left: &InstalledRuntime,
    right: &InstalledRuntime,
) -> (result: Order)
    ensures
        result == resolver_recency(left@, right@),
{
    compare_installed_recency(
        left,
        right,
        same(
            left.manifest.identity.engine_id.as_str(),
            right.manifest.identity.engine_id.as_str(),
        ),
    )
}

/// Recency turns with the sides.
pub proof fn law_recency_flips(
    left: RuntimeView,
    right: RuntimeView,
    ask_engine: bool,
    lineage_only: bool,
)
    ensures
        recency(right, left, ask_engine, lineage_only) == recency(
            left,
            right,
            ask_engine,
            lineage_only,
        ).flipped(),
        resolver_recency(right, left) == resolver_recency(left, right).flipped(),
{
    let (a, b) = (left.manifest, right.manifest);
    crate::versions::law_versions_are_ordered(
        a.identity.version,
        b.identity.version,
        b.identity.version,
    );
    crate::order::lemma_text_order_flips(a.runtime_id, b.runtime_id);
    if a.source_build is Some && b.source_build is Some {
        crate::order::lemma_text_order_flips(
            a.source_build->0.source.commit_sha,
            b.source_build->0.source.commit_sha,
        );
    }
}

/// Whether an installed runtime is proved to replace another: on the same line, from the same place,
/// with the same uses, and either the same source under a newer recipe or a higher release.
pub open spec fn supersedes(newer: RuntimeView, older: RuntimeView) -> bool {
    let (new, old) = (newer.manifest, older.manifest);
    let recipe_upgrade = new.source_build is Some && old.source_build is Some
        && old.source_build->0.source == new.source_build->0.source && recipe_order(
        older.variant(true),
        newer.variant(true),
    ) == Order::Greater;
    let (new_release, old_release) = (
        release_numbers(new.identity.version),
        release_numbers(old.identity.version),
    );
    let release_upgrade = new_release is Some && old_release is Some && numbers_order(
        new_release->0,
        old_release->0,
    ) == Order::Greater;
    &&& same_line(old.identity, older.variant(true), new.identity, newer.variant(true))
    &&& old.identity.package.repository == new.identity.package.repository
    &&& old.supported_formats == new.supported_formats
    &&& old.supported_native_identities == new.supported_native_identities
    &&& old.requirements == new.requirements
    &&& old.acquisition_method != RuntimeAcquisitionMethod::ExternalBinary
    &&& new.acquisition_method != RuntimeAcquisitionMethod::ExternalBinary
    &&& old.acquisition_method == new.acquisition_method || q27_family(old.identity, new.identity)
    &&& recipe_upgrade || release_upgrade
    &&& resolver_recency(newer, older) == Order::Greater
}

pub fn is_proven_superseding_installed_runtime(
    newer: &InstalledRuntime,
    older: &InstalledRuntime,
) -> (result: bool)
    ensures
        result == supersedes(newer@, older@),
{
    let new = &newer.manifest;
    let old = &older.manifest;
    let new_variant = newer.update_variant(true);
    let old_variant = older.update_variant(true);
    if !same_runtime_update_line(&old.identity, &old_variant, &new.identity, &new_variant)
        || !same_optional(&old.identity.package.repository, &new.identity.package.repository)
        || !same_list(&old.supported_formats, &new.supported_formats) || !same_list(
        &old.supported_native_identities,
        &new.supported_native_identities,
    ) || !same(old.requirements.as_str(), new.requirements.as_str()) || old.acquisition_method
        == RuntimeAcquisitionMethod::ExternalBinary || new.acquisition_method
        == RuntimeAcquisitionMethod::ExternalBinary || (old.acquisition_method
        != new.acquisition_method && !q27_logical_update_family(&old.identity, &new.identity)) {
        return false;
    }
    let recipe_upgrade = match (&old.source_build, &new.source_build) {
        (Some(old_build), Some(new_build)) => {
            let newer_recipe = match source_recipe_ordering(&old_variant, &new_variant) {
                Order::Greater => true,
                _ => false,
            };
            old_build.source.same_as(&new_build.source) && newer_recipe
        },
        _ => false,
    };
    let release_upgrade = match (
        release_parts(new.identity.version.as_str()),
        release_parts(old.identity.version.as_str()),
    ) {
        (Some(new), Some(old)) => match compare_numbers(&new, &old) {
            Order::Greater => true,
            _ => false,
        },
        _ => false,
    };
    if !recipe_upgrade && !release_upgrade {
        return false;
    }
    match compare_installed_recency_with_registry(newer, older) {
        Order::Greater => true,
        _ => false,
    }
}

/// Nothing that replaces a runtime is itself replaced by it, and nothing replaces itself.
pub proof fn law_superseding_is_one_way(a: RuntimeView, b: RuntimeView)
    ensures
        supersedes(a, b) ==> !supersedes(b, a),
        !supersedes(a, a),
{
    law_recency_flips(a, b, true, false);
    law_recency_flips(a, a, true, false);
}

/// Whether the record of a build from source is what the plan would make. A record from before the
/// effective arguments were kept is accepted without them.
pub open spec fn follows_plan(build: BuildView, plan: PlanView) -> bool {
    &&& plan.effective_arguments is Ok
    &&& build.effective_cmake_configuration_arguments is Some ==> plan.effective_arguments->Ok_0
        == build.effective_cmake_configuration_arguments
    &&& build.source == plan.source
    &&& build.recipe_version == plan.recipe_version
    &&& build.build_system == plan.build_system
    &&& build.cmake_configuration_arguments == plan.cmake_configuration_arguments
    &&& build.build_target == plan.build_target
    &&& build.accelerator_target == plan.accelerator_target
}

pub fn source_build_provenance_matches_plan(
    provenance: &RuntimeSourceBuildProvenance,
    plan: &RuntimeSourceBuildPlan,
) -> (result: bool)
    ensures
        result == follows_plan(provenance@, plan@),
{
    let effective_matches = match &plan.effective_arguments {
        Ok(expected) => match (&provenance.effective_cmake_configuration_arguments, expected) {
            (Some(recorded), Some(expected)) => same_list(recorded, expected),
            (None, _) => true,
            (Some(_), None) => false,
        },
        Err(_) => {
            return false;
        },
    };
    provenance.source.same_as(&plan.source) && same(
        provenance.recipe_version.as_str(),
        plan.recipe_version.as_str(),
    ) && provenance.build_system == plan.build_system && same_list(
        &provenance.cmake_configuration_arguments,
        &plan.cmake_configuration_arguments,
    ) && effective_matches && same(
        provenance.build_target.as_str(),
        plan.build_target.as_str(),
    ) && same(provenance.accelerator_target.as_str(), plan.accelerator_target.as_str())
}

/// Whether what a provider publishes is still what was installed.
pub open spec fn still_published(installed: RuntimeView, available: AvailableView) -> bool {
    let manifest = installed.manifest;
    &&& manifest.runtime_id == available.runtime_id
    &&& manifest.identity == available.identity
    &&& manifest.supported_formats == available.supported_formats
    &&& manifest.requirements == available.requirements
    &&& manifest.source_url == Some(available.source_url)
    &&& match available.acquisition {
        AcquisitionView::ReleaseAsset { digest, additional_digests } => {
            &&& manifest.acquisition_method == RuntimeAcquisitionMethod::OfficialReleaseAsset
                || manifest.acquisition_method == RuntimeAcquisitionMethod::PreseededOfficialPack
            &&& manifest.downloaded_archive_sha256 == digest
            &&& additional_digests == manifest.additional_downloaded_archive_sha256.map_values(
                |digest: Seq<char>| Some(digest),
            )
            &&& manifest.source_build is None
        },
        AcquisitionView::SourceBuild(plan) => {
            &&& manifest.acquisition_method == RuntimeAcquisitionMethod::SourceBuild
            &&& manifest.downloaded_archive_sha256 is None
            &&& manifest.additional_downloaded_archive_sha256.len() == 0
            &&& manifest.source_build is Some
            &&& follows_plan(manifest.source_build->0, plan)
        },
    }
}

fn same_digests(recorded: &Vec<String>, published: &Vec<Option<String>>) -> (result: bool)
    ensures
        result == (option_list(published@) == views(recorded@).map_values(
            |digest: Seq<char>| Some(digest),
        )),
{
    let ghost left = option_list(published@);
    let ghost right = views(recorded@).map_values(|digest: Seq<char>| Some(digest));
    if recorded.len() != published.len() {
        assert(left.len() != right.len());
        return false;
    }
    let mut i: usize = 0;
    while i < recorded.len()
        invariant
            i <= recorded.len(),
            recorded.len() == published.len(),
            left == option_list(published@),
            right == views(recorded@).map_values(|digest: Seq<char>| Some(digest)),
            forall|k: int| 0 <= k < i ==> #[trigger] left[k] == right[k],
        decreases recorded.len() - i,
    {
        if !is_text(&published[i], recorded[i].as_str()) {
            assert(left[i as int] != right[i as int]);
            return false;
        }
        assert(left[i as int] == right[i as int]);
        i += 1;
    }
    assert(left =~= right);
    true
}

/// What is said of a runtime that no longer is what its provider publishes.
pub open spec fn provenance_conflict(runtime_id: Seq<char>) -> Seq<char> {
    "runtime `"@ + runtime_id + "` has a provenance conflict: "@
        + "the current provider metadata no longer matches the immutable installed identity, requirements, source, or verified archive digests"@
}

pub fn ensure_catalog_provenance_matches(
    installed: &InstalledRuntime,
    available: &AvailableRuntime,
) -> (result: Result<(), RuntimePackError>)
    ensures
        match result {
            Ok(()) => still_published(installed@, available@),
            Err(error) => !still_published(installed@, available@) && error@
                == PackErrorView::Other(provenance_conflict(installed@.manifest.runtime_id)),
        },
{
    let manifest = &installed.manifest;
    let common_matches = same(manifest.runtime_id.as_str(), available.runtime_id.as_str())
        && manifest.identity.same_as(&available.identity) && same_list(
        &manifest.supported_formats,
        &available.supported_formats,
    ) && same(manifest.requirements.as_str(), available.requirements.as_str()) && is_text(
        &manifest.source_url,
        available.source_url.as_str(),
    );
    let acquisition_matches = match &available.acquisition {
        RuntimeAcquisitionPlan::ReleaseAsset { digest, additional_digests } => {
            (manifest.acquisition_method == RuntimeAcquisitionMethod::OfficialReleaseAsset
                || manifest.acquisition_method == RuntimeAcquisitionMethod::PreseededOfficialPack)
                && same_optional(&manifest.downloaded_archive_sha256, digest) && same_digests(
                &manifest.additional_downloaded_archive_sha256,
                additional_digests,
            ) && manifest.source_build.is_none()
        },
        RuntimeAcquisitionPlan::SourceBuild(plan) => {
            manifest.acquisition_method == RuntimeAcquisitionMethod::SourceBuild
                && manifest.downloaded_archive_sha256.is_none()
                && manifest.additional_downloaded_archive_sha256.len() == 0 && match &manifest.source_build {
                Some(provenance) => source_build_provenance_matches_plan(provenance, plan),
                None => false,
            }
        },
    };
    if common_matches && acquisition_matches {
        return Ok(());
    }
    Err(
        RuntimePackError::Other(
            cat4(
                "runtime `",
                manifest.runtime_id.as_str(),
                "` has a provenance conflict: ",
                "the current provider metadata no longer matches the immutable installed identity, requirements, source, or verified archive digests",
            ),
        ),
    )
}

/// Of two runtimes that are not both built from source, the one with the higher version is the more
/// recent.
pub proof fn law_higher_release_is_more_recent(
    newer: RuntimeView,
    older: RuntimeView,
    ask_engine: bool,
    lineage_only: bool,
)
    requires
        newer.manifest.source_build is None || older.manifest.source_build is None,
        version_order(newer.manifest.identity.version, older.manifest.identity.version)
            == Order::Greater,
    ensures
        recency(newer, older, ask_engine, lineage_only) == Order::Greater,
        recency(older, newer, ask_engine, lineage_only) == Order::Less,
        resolver_recency(newer, older) == Order::Greater,
        resolver_recency(older, newer) == Order::Less,
{
    law_recency_flips(newer, older, ask_engine, lineage_only);
}

/// Of two builds from source, the one of the later commit is the more recent: for the badge in any
/// case, otherwise where they are of one line. Of the same commit, the one made by the later recipe is.
pub proof fn law_later_commit_is_more_recent(
    newer: RuntimeView,
    older: RuntimeView,
    ask_engine: bool,
    lineage_only: bool,
)
    requires
        newer.manifest.source_build is Some,
        older.manifest.source_build is Some,
        lineage_only || same_line(
            newer.manifest.identity,
            newer.variant(ask_engine),
            older.manifest.identity,
            older.variant(ask_engine),
        ),
    ensures
        newer.manifest.source_build->0.source.commit_timestamp_unix
            > older.manifest.source_build->0.source.commit_timestamp_unix ==> recency(
            newer,
            older,
            ask_engine,
            lineage_only,
        ) == Order::Greater && recency(older, newer, ask_engine, lineage_only) == Order::Less,
        newer.manifest.source_build->0.source == older.manifest.source_build->0.source
            && same_line(
            newer.manifest.identity,
            newer.variant(ask_engine),
            older.manifest.identity,
            older.variant(ask_engine),
        ) && newer.variant(ask_engine).source_recipe_generation is Some && older.variant(
            ask_engine,
        ).source_recipe_generation is Some && newer.variant(ask_engine).source_recipe_generation->0
            > older.variant(ask_engine).source_recipe_generation->0 ==> recency(
            newer,
            older,
            ask_engine,
            lineage_only,
        ) == Order::Greater,
{
    law_recency_flips(newer, older, ask_engine, lineage_only);
    crate::order::lemma_text_order_equal(
        newer.manifest.source_build->0.source.commit_sha,
        older.manifest.source_build->0.source.commit_sha,
    );
}

/// A line is of one engine, platform, architecture, accelerator, function and provider; and of one
/// package family, but for the family of q27, whose releases and builds from source are one line.
pub proof fn law_line_is_one_use(
    a: RuntimeIdentityView,
    a_variant: VariantView,
    b: RuntimeIdentityView,
    b_variant: VariantView,
)
    ensures
        same_line(a, a_variant, b, b_variant) <==> {
            &&& a.engine_id == b.engine_id
            &&& a.platform == b.platform
            &&& a.architecture == b.architecture
            &&& a.accelerator == b.accelerator
            &&& a.package.provider_id == b.package.provider_id
            &&& a_variant.functional_variant == b_variant.functional_variant
            &&& a.package_family == b.package_family || q27_member(a) && q27_member(b)
        },
        q27_member(a) ==> a.engine_id == "q27"@ && a.package.provider_id == "q27-official-github"@
            && a.package.repository == Some("signalnine/q27"@),
        a.engine_id == "q27"@ && a.package.provider_id == "q27-official-github"@
            && a.package.repository == Some("signalnine/q27"@) && a.package_family
            == "q27-official-release"@ ==> q27_member(a),
        q27_release(a) <==> q27_member(a) && a.package.release_tag == Some("v"@ + a.version),
{
}

/// A stable runtime follows what is stable and a latest one what is latest, whatever is published of
/// them. A pinned one follows what is stable where it is published as stable or is no prerelease.
pub proof fn law_preferences_follow_their_channels(published: AvailableView)
    ensures
        followed_channel(RuntimeUpdatePreference::Stable, None) == RuntimeReleaseChannel::Stable,
        followed_channel(RuntimeUpdatePreference::Latest, None) == RuntimeReleaseChannel::Latest,
        followed_channel(RuntimeUpdatePreference::Pinned, None) == RuntimeReleaseChannel::Latest,
        followed_channel(RuntimeUpdatePreference::Stable, Some(published))
            == RuntimeReleaseChannel::Stable,
        followed_channel(RuntimeUpdatePreference::Latest, Some(published))
            == RuntimeReleaseChannel::Latest,
        !published.prerelease ==> followed_channel(RuntimeUpdatePreference::Pinned, Some(published))
            == RuntimeReleaseChannel::Stable,
        published.channels.contains(RuntimeReleaseChannel::Stable) ==> followed_channel(
            RuntimeUpdatePreference::Pinned,
            Some(published),
        ) == RuntimeReleaseChannel::Stable,
        published.prerelease && !published.channels.contains(RuntimeReleaseChannel::Stable)
            ==> followed_channel(RuntimeUpdatePreference::Pinned, Some(published))
            == RuntimeReleaseChannel::Latest,
{
}

/// What is told of a higher release: an offer of that very build, or where the runtime is pinned the
/// fact alone. Of one that is not higher nothing is told.
pub proof fn law_higher_release_is_offered(installed: RuntimeIdentityView, candidate: AvailableView)
    ensures
        ({
            let (id, version) = (candidate.runtime_id, candidate.identity.version);
            if version_order(version, installed.version) == Order::Greater {
                &&& semantic_state(RuntimeUpdatePreference::Stable, installed, candidate)
                    == UpdateView::NewerCompatibleVersion { runtime_id: id, version }
                &&& semantic_state(RuntimeUpdatePreference::Latest, installed, candidate)
                    == UpdateView::NewerCompatibleVersion { runtime_id: id, version }
                &&& semantic_state(RuntimeUpdatePreference::Pinned, installed, candidate)
                    == UpdateView::Pinned { newer_runtime_id: Some(id), newer_version: Some(version) }
            } else {
                &&& semantic_state(RuntimeUpdatePreference::Stable, installed, candidate)
                    == UpdateView::Current
                &&& semantic_state(RuntimeUpdatePreference::Latest, installed, candidate)
                    == UpdateView::Current
                &&& semantic_state(RuntimeUpdatePreference::Pinned, installed, candidate)
                    == UpdateView::Pinned { newer_runtime_id: None, newer_version: None }
            }
        }),
{
}

/// What is told of a build from source: it is offered where its commit is ahead of the installed one
/// and not behind it, or where it is the same commit and the recipe is newer; the same commit by the
/// same recipe is current; and anything else is an error. A pinned runtime is only told.
pub proof fn law_descendants_are_offered(
    runtime_id: Seq<char>,
    version: Seq<char>,
    comparison: GitHubCompare,
    recipe: Order,
)
    ensures
        ({
            let ahead = comparison.status == GitHubComparisonStatus::Ahead && comparison.ahead_by > 0
                && comparison.behind_by == 0;
            let same = comparison.status == GitHubComparisonStatus::Identical
                && comparison.ahead_by == 0 && comparison.behind_by == 0;
            let told = |preference: RuntimeUpdatePreference|
                history_state(preference, runtime_id, version, comparison, recipe);
            if ahead || same && recipe == Order::Greater {
                &&& told(RuntimeUpdatePreference::Stable) == UpdateView::NewerCompatibleVersion {
                    runtime_id,
                    version,
                }
                &&& told(RuntimeUpdatePreference::Latest) == UpdateView::NewerCompatibleVersion {
                    runtime_id,
                    version,
                }
                &&& told(RuntimeUpdatePreference::Pinned) == UpdateView::Pinned {
                    newer_runtime_id: Some(runtime_id),
                    newer_version: Some(version),
                }
            } else if same {
                &&& told(RuntimeUpdatePreference::Stable) == UpdateView::Current
                &&& told(RuntimeUpdatePreference::Latest) == UpdateView::Current
                &&& told(RuntimeUpdatePreference::Pinned) == UpdateView::Pinned {
                    newer_runtime_id: None,
                    newer_version: None,
                }
            } else {
                &&& told(RuntimeUpdatePreference::Stable) is ProviderError
                &&& told(RuntimeUpdatePreference::Latest) is ProviderError
                &&& told(RuntimeUpdatePreference::Pinned) is ProviderError
            }
        }),
{
}

/// The recipe of a candidate is newer where both serve the same function and its generation is the
/// higher; where a generation is not known, neither is newer.
pub proof fn law_recipes_compare_by_generation(installed: VariantView, candidate: VariantView)
    ensures
        recipe_order(installed, candidate) == Order::Greater <==> installed.functional_variant
            == candidate.functional_variant && installed.source_recipe_generation is Some
            && candidate.source_recipe_generation is Some && candidate.source_recipe_generation->0
            > installed.source_recipe_generation->0,
        recipe_order(installed, candidate) == Order::Less <==> installed.functional_variant
            == candidate.functional_variant && installed.source_recipe_generation is Some
            && candidate.source_recipe_generation is Some && candidate.source_recipe_generation->0
            < installed.source_recipe_generation->0,
{
}

/// What was published later comes above, and what has no time of publication below.
pub proof fn law_times_compare(a: i64, b: i64)
    ensures
        a > b ==> time_order(Some(a), Some(b)) == Order::Greater,
        a < b ==> time_order(Some(a), Some(b)) == Order::Less,
        time_order(Some(a), Some(a)) == Order::Equal,
        time_order(Some(a), None) == Order::Greater,
        time_order(None, Some(b)) == Order::Less,
        time_order(None, None) == Order::Equal,
{
}

/// A runtime replaces another only where it is for the same use, from the same repository, with the
/// same formats, native identities and requirements, neither is someone else's binary, and it is either
/// a release with the higher numbers or the same source by a newer recipe; and such a one does replace
/// it where it is also the more recent.
pub proof fn law_only_better_builds_supersede(newer: RuntimeView, older: RuntimeView)
    ensures
        supersedes(newer, older) <==> {
            let (new, old) = (newer.manifest, older.manifest);
            let high = release_numbers(new.identity.version);
            let low = release_numbers(old.identity.version);
            &&& new.identity.engine_id == old.identity.engine_id
            &&& new.identity.platform == old.identity.platform
            &&& new.identity.architecture == old.identity.architecture
            &&& new.identity.accelerator == old.identity.accelerator
            &&& new.identity.package.provider_id == old.identity.package.provider_id
            &&& new.identity.package.repository == old.identity.package.repository
            &&& newer.variant(true).functional_variant == older.variant(true).functional_variant
            &&& new.identity.package_family == old.identity.package_family || q27_member(
                new.identity,
            ) && q27_member(old.identity)
            &&& new.supported_formats == old.supported_formats
            &&& new.supported_native_identities == old.supported_native_identities
            &&& new.requirements == old.requirements
            &&& new.acquisition_method != RuntimeAcquisitionMethod::ExternalBinary
            &&& old.acquisition_method != RuntimeAcquisitionMethod::ExternalBinary
            &&& new.acquisition_method == old.acquisition_method || q27_member(new.identity)
                && q27_member(old.identity)
            &&& high is Some && low is Some && numbers_order(high->0, low->0) == Order::Greater || new.source_build is Some && old.source_build is Some
                && new.source_build->0.source == old.source_build->0.source && newer.variant(
                true,
            ).source_recipe_generation is Some && older.variant(true).source_recipe_generation
                is Some && newer.variant(true).source_recipe_generation->0 > older.variant(
                true,
            ).source_recipe_generation->0
            &&& resolver_recency(newer, older) == Order::Greater
        },
{
}

/// What is published is still what was installed only where the identifiers, the identity, the formats,
/// the requirements and the place are the same; a release must have the same digests, and a build from
/// source the same source by the same recipe.
pub proof fn law_changed_publications_are_noticed(installed: RuntimeView, available: AvailableView)
    ensures
        still_published(installed, available) ==> {
            let manifest = installed.manifest;
            &&& manifest.runtime_id == available.runtime_id
            &&& manifest.identity == available.identity
            &&& manifest.supported_formats == available.supported_formats
            &&& manifest.requirements == available.requirements
            &&& manifest.source_url == Some(available.source_url)
            &&& manifest.acquisition_method != RuntimeAcquisitionMethod::ExternalBinary
            &&& available.acquisition matches AcquisitionView::ReleaseAsset {
                digest,
                additional_digests,
            } ==> {
                &&& manifest.downloaded_archive_sha256 == digest
                &&& additional_digests.len() == manifest.additional_downloaded_archive_sha256.len()
                &&& forall|i: int|
                    0 <= i < additional_digests.len() ==> #[trigger] additional_digests[i] == Some(
                        manifest.additional_downloaded_archive_sha256[i],
                    )
                &&& manifest.source_build is None
            }
            &&& available.acquisition matches AcquisitionView::SourceBuild(plan) ==> {
                &&& manifest.acquisition_method == RuntimeAcquisitionMethod::SourceBuild
                &&& manifest.downloaded_archive_sha256 is None
                &&& manifest.source_build is Some
                &&& manifest.source_build->0.source == plan.source
                &&& manifest.source_build->0.recipe_version == plan.recipe_version
                &&& manifest.source_build->0.build_system == plan.build_system
                &&& manifest.source_build->0.build_target == plan.build_target
                &&& manifest.source_build->0.accelerator_target == plan.accelerator_target
                &&& manifest.source_build->0.cmake_configuration_arguments
                    == plan.cmake_configuration_arguments
            }
        },
{
}

} // verus!
