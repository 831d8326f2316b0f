//! Reclaiming storage: which runtimes may go, and what is told of it.
use vstd::prelude::*;
use vstd::string::*;

use crate::cli::PruneArgs;
use crate::duplicate::{lemma_views_push, views};
use crate::order::{lemma_text_order_chains, lemma_text_order_flips, text_order, Order};
use crate::runtimes::{InstalledRuntime, ManifestView, RuntimeManifest, RuntimeView};
use crate::selections::{selected_for, RuntimeSelections, SelectionsView};
use crate::text::{
    cat2, cat3, cat4, cat5, cat6, cat7, chars_of, decimal, decimal_text, join, joined, pieces,
    same, same_ignoring_case, same_list, same_optional, split_on, text_between, trim, trimmed,
    ascii_lower,
};
use crate::updates::{compare_installed_recency, recency};
use crate::versions::{
    is_digit, law_versions_are_ordered, version_order, without_release_letters,
};

verus! {

/// Whether two runtimes serve the same: one can take the other's place.
pub open spec fn grouped(old: ManifestView, new: ManifestView) -> bool {
    let (a, b) = (old.identity, new.identity);
    &&& a.engine_id == b.engine_id
    &&& a.package_family == b.package_family
    &&& a.platform == b.platform
    &&& a.architecture == b.architecture
    &&& a.accelerator == b.accelerator
    &&& a.variant == b.variant
    &&& a.package.provider_id == b.package.provider_id
    &&& a.package.repository == b.package.repository
    &&& old.supported_formats == new.supported_formats
    &&& old.supported_native_identities == new.supported_native_identities
    &&& old.requirements == new.requirements
    &&& old.acquisition_method == new.acquisition_method
}

pub fn same_group(old: &RuntimeManifest, new: &RuntimeManifest) -> (result: bool)
    ensures
        result == grouped(old@, new@),
{
    let a = &old.identity;
    let b = &new.identity;
    same(a.engine_id.as_str(), b.engine_id.as_str()) && same(
        a.package_family.as_str(),
        b.package_family.as_str(),
    ) && same(a.platform.as_str(), b.platform.as_str()) && same(
        a.architecture.as_str(),
        b.architecture.as_str(),
    ) && same(a.accelerator.as_str(), b.accelerator.as_str()) && same(
        a.variant.as_str(),
        b.variant.as_str(),
    ) && same(a.package.provider_id.as_str(), b.package.provider_id.as_str()) && same_optional(
        &a.package.repository,
        &b.package.repository,
    ) && same_list(&old.supported_formats, &new.supported_formats) && same_list(
        &old.supported_native_identities,
        &new.supported_native_identities,
    ) && same(old.requirements.as_str(), new.requirements.as_str()) && old.acquisition_method
        == new.acquisition_method
}

/// Whether a text is digits and nothing else.
pub open spec fn all_digits(text: Seq<char>) -> bool {
    text.len() > 0 && forall|i: int| 0 <= i < text.len() ==> is_digit(#[trigger] text[i])
}

/// Whether a version is a numbered release, so that its order is known.
pub open spec fn is_numbered(version: Seq<char>) -> bool {
    let plain = without_release_letters(version);
    plain.len() > 0 && forall|i: int|
        0 <= i < pieces(plain, '.').len() ==> all_digits(#[trigger] pieces(plain, '.')[i])
}

/// Whether it is known which of two runtimes is the newer.
pub open spec fn comparable(old: ManifestView, new: ManifestView) -> bool {
    old.source_build is Some && new.source_build is Some || is_numbered(old.identity.version)
        && is_numbered(new.identity.version)
}

fn check_digits(text: &str) -> (result: bool)
    ensures
        result == all_digits(text@),
{
    let chars = chars_of(text);
    if chars.len() == 0 {
        return false;
    }
    let mut i: usize = 0;
    while i < chars.len()
        invariant
            i <= chars.len(),
            chars@ == text@,
            forall|k: int| 0 <= k < i ==> is_digit(#[trigger] chars@[k]),
        decreases chars.len() - i,
    {
        if chars[i] < '0' || '9' < chars[i] {
            assert(!is_digit(text@[i as int]));
            return false;
        }
        i += 1;
    }
    true
}

fn check_numbered(version: &str) -> (result: bool)
    ensures
        result == is_numbered(version@),
{
    let chars = chars_of(version);
    let mut start: usize = 0;
    proof {
        assert(chars@.skip(0) =~= chars@);
    }
    while start < chars.len() && (chars[start] == 'v' || chars[start] == 'b')
        invariant
            start <= chars.len(),
            chars@ == version@,
            without_release_letters(version@) == without_release_letters(
                version@.skip(start as int),
            ),
        decreases chars.len() - start,
    {
        proof {
            assert(version@.skip(start as int).skip(1) =~= version@.skip(start + 1));
        }
        start += 1;
    }
    let plain = text_between(&chars, start, chars.len());
    proof {
        assert(plain@ =~= version@.skip(start as int));
        if start < chars.len() {
            assert(plain@[0] == chars@[start as int]);
        }
    }
    if start == chars.len() {
        return false;
    }
    let parts = split_on(plain.as_str(), '.');
    let ghost all = pieces(plain@, '.');
    let mut i: usize = 0;
    while i < parts.len()
        invariant
            i <= parts.len(),
            views(parts@) == all,
            all == pieces(without_release_letters(version@), '.'),
            forall|k: int| 0 <= k < i ==> all_digits(#[trigger] all[k]),
        decreases parts.len() - i,
    {
        proof {
            assert(views(parts@)[i as int] == parts@[i as int]@);
        }
        if !check_digits(parts[i].as_str()) {
            assert(!all_digits(all[i as int]));
            return false;
        }
        i += 1;
    }
    true
}

pub fn comparable_versions(old: &RuntimeManifest, new: &RuntimeManifest) -> (result: bool)
    ensures
        result == comparable(old@, new@),
{
    if old.source_build.is_some() && new.source_build.is_some() {
        return true;
    }
    check_numbered(old.identity.version.as_str()) && check_numbered(new.identity.version.as_str())
}

/// Whether one runtime is known to be the newer one of the same use.
pub open spec fn outdates(newer: RuntimeView, older: RuntimeView) -> bool {
    &&& grouped(older.manifest, newer.manifest)
    &&& comparable(older.manifest, newer.manifest)
    &&& recency(newer, older, false, false) == Order::Greater
}

/// Whether someone chose a runtime, or how it is updated.
pub open spec fn is_wanted(selections: SelectionsView, runtime_id: Seq<char>) -> bool {
    selections.is_used(runtime_id) || selections.update_preferences.contains_key(runtime_id)
}

/// What becomes of a runtime.
#[derive(Debug)]
pub enum PruneVerdict {
    Remove,
    Protect(String),
}

#[verifier::ext_equal]
pub enum PruneVerdictView {
    Remove,
    Protect(Seq<char>),
}

impl View for PruneVerdict {
    type V = PruneVerdictView;

    open spec fn view(&self) -> PruneVerdictView {
        match self {
            PruneVerdict::Remove => PruneVerdictView::Remove,
            PruneVerdict::Protect(reason) => PruneVerdictView::Protect(reason@),
        }
    }
}

/// Whether some runtime of a list outdates another.
pub open spec fn is_outdated(runtimes: Seq<RuntimeView>, runtime: RuntimeView) -> bool {
    exists|i: int| 0 <= i < runtimes.len() && outdates(#[trigger] runtimes[i], runtime)
}

pub open spec fn prune_verdict(
    runtimes: Seq<RuntimeView>,
    selections: SelectionsView,
    runtime: RuntimeView,
) -> PruneVerdictView {
    let id = runtime.manifest.runtime_id;
    if is_wanted(selections, id) {
        PruneVerdictView::Protect("runtime "@ + id + ": "@ + "explicitly selected"@)
    } else if is_outdated(runtimes, runtime) {
        PruneVerdictView::Remove
    } else {
        PruneVerdictView::Protect("runtime "@ + id + ": "@ + "newest or no proven replacement"@)
    }
}

fn check_outdated(runtimes: &Vec<InstalledRuntime>, runtime: &InstalledRuntime) -> (result: bool)
    ensures
        result == is_outdated(views(runtimes@), runtime@),
{
    let ghost all = views(runtimes@);
    let mut i: usize = 0;
    while i < runtimes.len()
        invariant
            i <= runtimes.len(),
            all == views(runtimes@),
            forall|k: int| 0 <= k < i ==> !outdates(#[trigger] all[k], runtime@),
        decreases runtimes.len() - i,
    {
        proof {
            assert(all[i as int] == runtimes@[i as int]@);
        }
        if same_group(&runtime.manifest, &runtimes[i].manifest) && comparable_versions(
            &runtime.manifest,
            &runtimes[i].manifest,
        ) {
            match compare_installed_recency(&runtimes[i], runtime, false) {
                Order::Greater => {
                    return true;
                },
                _ => {},
            }
        }
        i += 1;
    }
    false
}

/// What becomes of each runtime that is installed: one that nobody chose goes where a newer one of
/// the same use is there.
pub fn plan_runtime_prune(
    runtimes: &Vec<InstalledRuntime>,
    selections: &RuntimeSelections,
) -> (result: Vec<PruneVerdict>)
    ensures
        views(result@) == views(runtimes@).map_values(
            |runtime: RuntimeView| prune_verdict(views(runtimes@), selections@, runtime),
        ),
{
    let ghost all = views(runtimes@);
    let ghost goal = all.map_values(
        |runtime: RuntimeView| prune_verdict(all, selections@, runtime),
    );
    let mut result: Vec<PruneVerdict> = Vec::new();
    let mut i: usize = 0;
    while i < runtimes.len()
        invariant
            i <= runtimes.len(),
            all == views(runtimes@),
            goal == all.map_values(
                |runtime: RuntimeView| prune_verdict(all, selections@, runtime),
            ),
            views(result@) =~= goal.take(i as int),
        decreases runtimes.len() - i,
    {
        let runtime = &runtimes[i];
        let id = runtime.manifest.runtime_id.as_str();
        let wanted = selected_for(selections, id).len() > 0 || selections.update_preferences.contains(
            id,
        );
        let verdict = if wanted {
            PruneVerdict::Protect(cat4("runtime ", id, ": ", "explicitly selected"))
        } else if check_outdated(runtimes, runtime) {
            PruneVerdict::Remove
        } else {
            PruneVerdict::Protect(cat4("runtime ", id, ": ", "newest or no proven replacement"))
        };
        proof {
            assert(all[i as int] == runtime@);
            assert(goal[i as int] == verdict@);
            lemma_views_push(result@, verdict);
            assert(goal.take(i + 1) =~= goal.take(i as int).push(goal[i as int]));
        }
        result.push(verdict);
        i += 1;
    }
    proof {
        assert(goal.take(goal.len() as int) =~= goal);
    }
    result
}

proof fn lemma_group_recency(a: RuntimeView, b: RuntimeView, c: RuntimeView)
    requires
        grouped(a.manifest, b.manifest),
        grouped(b.manifest, c.manifest),
        a.manifest.source_build is Some == b.manifest.source_build is Some,
        b.manifest.source_build is Some == c.manifest.source_build is Some,
        recency(a, b, false, false) == Order::Greater,
        recency(b, c, false, false) == Order::Greater,
    ensures
        recency(a, c, false, false) == Order::Greater,
{
    let (x, y, z) = (a.manifest, b.manifest, c.manifest);
    law_versions_are_ordered(x.identity.version, y.identity.version, z.identity.version);
    law_versions_are_ordered(z.identity.version, y.identity.version, x.identity.version);
    law_versions_are_ordered(y.identity.version, z.identity.version, x.identity.version);
    law_versions_are_ordered(x.identity.version, z.identity.version, x.identity.version);
    if x.source_build is Some {
        let (p, q, r) = (
            x.source_build->0.source.commit_sha,
            y.source_build->0.source.commit_sha,
            z.source_build->0.source.commit_sha,
        );
        lemma_text_order_flips(p, q);
        lemma_text_order_flips(q, r);
        lemma_text_order_flips(p, r);
        if text_order(r, q) != Order::Greater && text_order(q, p) != Order::Greater {
            lemma_text_order_chains(r, q, p);
        }
        crate::order::lemma_text_order_equal(p, q);
        crate::order::lemma_text_order_equal(q, r);
        crate::order::lemma_text_order_equal(p, r);
        lemma_text_order_flips(x.runtime_id, y.runtime_id);
        lemma_text_order_flips(y.runtime_id, z.runtime_id);
        lemma_text_order_flips(x.runtime_id, z.runtime_id);
        if text_order(z.runtime_id, y.runtime_id) != Order::Greater && text_order(
            y.runtime_id,
            x.runtime_id,
        ) != Order::Greater {
            lemma_text_order_chains(z.runtime_id, y.runtime_id, x.runtime_id);
        }
    }
}

/// What is removed was chosen by nobody, and a newer one of the same use is there.
pub proof fn law_removed_runtimes_are_replaced(
    runtimes: Seq<RuntimeView>,
    selections: SelectionsView,
    runtime: RuntimeView,
)
    ensures
        prune_verdict(runtimes, selections, runtime) is Remove ==> !is_wanted(
            selections,
            runtime.manifest.runtime_id,
        ) && exists|i: int|
            0 <= i < runtimes.len() && outdates(#[trigger] runtimes[i], runtime),
{
}

/// Whether one runtime could take the place of another: it is of the same engine, package family,
/// platform, architecture, accelerator and variant, from the same provider and repository, for the same
/// formats, native identities and requirements, and came here in the same way.
pub open spec fn could_replace(newer: ManifestView, older: ManifestView) -> bool {
    &&& newer.identity.engine_id == older.identity.engine_id
    &&& newer.identity.package_family == older.identity.package_family
    &&& newer.identity.platform == older.identity.platform
    &&& newer.identity.architecture == older.identity.architecture
    &&& newer.identity.accelerator == older.identity.accelerator
    &&& newer.identity.variant == older.identity.variant
    &&& newer.identity.package.provider_id == older.identity.package.provider_id
    &&& newer.identity.package.repository == older.identity.package.repository
    &&& newer.supported_formats == older.supported_formats
    &&& newer.supported_native_identities == older.supported_native_identities
    &&& newer.requirements == older.requirements
    &&& newer.acquisition_method == older.acquisition_method
}

/// Whether a runtime is the newer one of two: of two builds from source the one of the later commit,
/// where both are of one time the one with the greater hash, then identifier; otherwise the one with the
/// higher version, where both versions are those of numbered releases.
pub open spec fn is_newer(newer: RuntimeView, older: RuntimeView) -> bool {
    let (new, old) = (newer.manifest, older.manifest);
    if new.source_build is Some && old.source_build is Some {
        let (a, b) = (new.source_build->0.source, old.source_build->0.source);
        let hashes = text_order(a.commit_sha, b.commit_sha);
        a.commit_timestamp_unix > b.commit_timestamp_unix || a.commit_timestamp_unix
            == b.commit_timestamp_unix && (hashes == Order::Greater || hashes == Order::Equal
            && text_order(new.runtime_id, old.runtime_id) == Order::Greater)
    } else {
        &&& is_numbered(new.identity.version)
        &&& is_numbered(old.identity.version)
        &&& version_order(new.identity.version, old.identity.version) == Order::Greater
    }
}

/// A runtime is removed exactly if nobody chose it for a format, for a model or with an update
/// preference, and a newer one that could take its place is installed.
pub proof fn law_only_replaceable_runtimes_are_removed(
    runtimes: Seq<RuntimeView>,
    selections: SelectionsView,
    runtime: RuntimeView,
)
    ensures
        prune_verdict(runtimes, selections, runtime) is Remove <==> {
            let id = runtime.manifest.runtime_id;
            &&& forall|format: Seq<char>| #[trigger]
                selections.format_defaults.contains_key(format)
                    ==> selections.format_defaults[format] != id
            &&& forall|model: Seq<char>| #[trigger]
                selections.model_overrides.contains_key(model)
                    ==> selections.model_overrides[model] != id
            &&& !selections.update_preferences.contains_key(id)
            &&& exists|i: int|
                0 <= i < runtimes.len() && could_replace(
                    (#[trigger] runtimes[i]).manifest,
                    runtime.manifest,
                ) && is_newer(runtimes[i], runtime)
        },
{
}

/// The newest of a use is not removed: of each runtime there is, itself or one that outdates it stays,
/// where its group is built from source throughout or not at all.
pub proof fn law_newest_stays(runtimes: Seq<RuntimeView>, selections: SelectionsView, at: int)
    requires
        0 <= at < runtimes.len(),
        forall|i: int, j: int|
            0 <= i < runtimes.len() && 0 <= j < runtimes.len() && grouped(
                (#[trigger] runtimes[i]).manifest,
                (#[trigger] runtimes[j]).manifest,
            ) ==> runtimes[i].manifest.source_build is Some == runtimes[j].manifest.source_build
                is Some,
    ensures
        exists|i: int|
            0 <= i < runtimes.len() && (i == at || outdates(#[trigger] runtimes[i], runtimes[at]))
                && prune_verdict(runtimes, selections, runtimes[i]) is Protect,
{
    let best = lemma_newest(runtimes, runtimes.len() as int, at);
    assert(best == at || outdates(runtimes[best], runtimes[at]));
    if is_outdated(runtimes, runtimes[best]) {
        let i = choose|i: int|
            0 <= i < runtimes.len() && outdates(#[trigger] runtimes[i], runtimes[best]);
        assert(false);
    }
    assert(prune_verdict(runtimes, selections, runtimes[best]) is Protect);
    if best == at {
        assert(runtimes[best] == runtimes[at]);
    }
}

proof fn lemma_outdates_chains(a: RuntimeView, b: RuntimeView, c: RuntimeView)
    requires
        outdates(a, b),
        outdates(b, c),
        a.manifest.source_build is Some == b.manifest.source_build is Some,
        b.manifest.source_build is Some == c.manifest.source_build is Some,
    ensures
        outdates(a, c),
{
    lemma_group_recency(a, b, c);
}

/// One that stands at a place or outdates what stands there, and that none of the first ones
/// outdates.
proof fn lemma_newest(runtimes: Seq<RuntimeView>, count: int, at: int) -> (best: int)
    requires
        0 <= at < runtimes.len(),
        0 <= count <= runtimes.len(),
        forall|i: int, j: int|
            0 <= i < runtimes.len() && 0 <= j < runtimes.len() && grouped(
                (#[trigger] runtimes[i]).manifest,
                (#[trigger] runtimes[j]).manifest,
            ) ==> runtimes[i].manifest.source_build is Some == runtimes[j].manifest.source_build
                is Some,
    ensures
        0 <= best < runtimes.len(),
        best == at || outdates(runtimes[best], runtimes[at]),
        forall|i: int| 0 <= i < count ==> !outdates(#[trigger] runtimes[i], runtimes[best]),
    decreases count,
{
    if count == 0 {
        at
    } else {
        let before = lemma_newest(runtimes, count - 1, at);
        let last = runtimes[count - 1];
        if outdates(last, runtimes[before]) {
            assert(grouped(runtimes[before].manifest, runtimes[count - 1].manifest));
            if before != at {
                assert(grouped(runtimes[at].manifest, runtimes[before].manifest));
                lemma_outdates_chains(last, runtimes[before], runtimes[at]);
            }
            assert forall|i: int| 0 <= i < count implies !outdates(#[trigger] runtimes[i], last) by {
                if outdates(runtimes[i], last) {
                    if i < count - 1 {
                        assert(grouped(runtimes[count - 1].manifest, runtimes[i].manifest));
                        lemma_outdates_chains(runtimes[i], last, runtimes[before]);
                    } else {
                        crate::updates::law_recency_flips(last, last, false, false);
                    }
                }
            }
            count - 1
        } else {
            before
        }
    }
}

/// Something to reclaim.
#[derive(Debug)]
pub struct PruneEntry {
    pub category: String,
    pub path: String,
    pub files: u64,
    pub expected_bytes: u64,
}

/// A plan to reclaim storage and what came of it.
#[derive(Debug)]
pub struct PrunePlan {
    pub mode: String,
    pub categories: Vec<String>,
    pub entries: Vec<PruneEntry>,
    pub expected_bytes: u64,
    pub removed_paths: u64,
    pub removed_files: u64,
    pub filesystem_reclaimed_bytes: Option<u64>,
    pub filesystem_reclaimed_by_root: Vec<(String, u64)>,
    pub protected: Vec<String>,
}

/// How many files some entries hold.
pub open spec fn total_files(entries: Seq<PruneEntry>) -> nat
    decreases entries.len(),
{
    if entries.len() == 0 {
        0
    } else {
        total_files(entries.drop_last()) + entries.last().files as nat
    }
}

proof fn lemma_total_grows(entries: Seq<PruneEntry>, count: int)
    requires
        0 <= count <= entries.len(),
    ensures
        total_files(entries.take(count)) <= total_files(entries),
    decreases entries.len(),
{
    if count == entries.len() {
        assert(entries.take(count) =~= entries);
    } else {
        lemma_total_grows(entries.drop_last(), count);
        assert(entries.drop_last().take(count) =~= entries.take(count));
    }
}

fn count_files(entries: &Vec<PruneEntry>) -> (result: u64)
    requires
        total_files(entries@) <= u64::MAX,
    ensures
        result == total_files(entries@),
{
    let mut total: u64 = 0;
    let mut i: usize = 0;
    while i < entries.len()
        invariant
            i <= entries.len(),
            total_files(entries@) <= u64::MAX,
            total == total_files(entries@.take(i as int)),
        decreases entries.len() - i,
    {
        proof {
            assert(entries@.take(i + 1).drop_last() =~= entries@.take(i as int));
            assert(entries@.take(i + 1).last() == entries@[i as int]);
            lemma_total_grows(entries@, i + 1);
        }
        total = total + entries[i].files;
        i += 1;
    }
    proof {
        assert(entries@.take(entries@.len() as int) =~= entries@);
    }
    total
}

/// What is told of a plan, line by line.
pub open spec fn prune_lines(plan: PrunePlan, dry_run: bool) -> Seq<Seq<char>> {
    let head = seq![
        "Prune mode: "@ + plan.mode@ + if dry_run {
            " (dry-run)"@
        } else {
            ""@
        },
        "Categories: "@ + joined(views(plan.categories@), ", "@),
        "Plan: "@ + decimal(plan.entries@.len()) + " paths, "@ + decimal(
            total_files(plan.entries@),
        ) + " files; expected reclaim "@ + decimal(plan.expected_bytes as nat)
            + " bytes (logical)"@,
    ];
    let entries = if dry_run {
        plan.entries@.map_values(|entry: PruneEntry| entry_line(entry))
    } else {
        Seq::empty()
    };
    let removed = seq![
        "Removed: "@ + decimal(plan.removed_paths as nat) + " paths, "@ + decimal(
            plan.removed_files as nat,
        ) + " files; filesystem reclaim: "@ + match plan.filesystem_reclaimed_bytes {
            Some(bytes) => decimal(bytes as nat) + " bytes"@,
            None => "not measured"@,
        },
    ];
    let protected = plan.protected@.map_values(|text: String| "Protected: "@ + text@);
    let roots = if plan.filesystem_reclaimed_bytes is None && !dry_run {
        plan.filesystem_reclaimed_by_root@.map_values(|root: (String, u64)| root_line(root))
    } else {
        Seq::empty()
    };
    head + entries + removed + protected + roots
}

pub open spec fn entry_line(entry: PruneEntry) -> Seq<char> {
    "  "@ + entry.category@ + ": "@ + entry.path@ + " ("@ + decimal(entry.expected_bytes as nat)
        + " bytes)"@
}

pub open spec fn root_line(root: (String, u64)) -> Seq<char> {
    "Filesystem reclaim at "@ + root.0@ + ": "@ + decimal(root.1 as nat) + " bytes"@
}

pub fn prune_report(plan: &PrunePlan, dry_run: bool) -> (result: Vec<String>)
    requires
        total_files(plan.entries@) <= u64::MAX,
    ensures
        views(result@) == prune_lines(*plan, dry_run),
{
    let mut lines: Vec<String> = Vec::new();
    lines.push(
        cat3(
            "Prune mode: ",
            plan.mode.as_str(),
            if dry_run {
                " (dry-run)"
            } else {
                ""
            },
        ),
    );
    lines.push(cat2("Categories: ", join(&plan.categories, ", ").as_str()));
    lines.push(
        cat7(
            "Plan: ",
            decimal_text(plan.entries.len() as u64).as_str(),
            " paths, ",
            decimal_text(count_files(&plan.entries)).as_str(),
            " files; expected reclaim ",
            decimal_text(plan.expected_bytes).as_str(),
            " bytes (logical)",
        ),
    );
    let ghost head = views(lines@);
    let ghost shown = if dry_run {
        plan.entries@.map_values(|entry: PruneEntry| entry_line(entry))
    } else {
        Seq::empty()
    };
    if dry_run {
        let mut i: usize = 0;
        proof {
            assert(head + shown.take(0) =~= head);
        }
        while i < plan.entries.len()
            invariant
                i <= plan.entries.len(),
                shown == plan.entries@.map_values(|entry: PruneEntry| entry_line(entry)),
                views(lines@) == head + shown.take(i as int),
            decreases plan.entries.len() - i,
        {
            let entry = &plan.entries[i];
            let line = cat7(
                "  ",
                entry.category.as_str(),
                ": ",
                entry.path.as_str(),
                " (",
                decimal_text(entry.expected_bytes).as_str(),
                " bytes)",
            );
            proof {
                assert(shown[i as int] == line@);
                lemma_views_push(lines@, line);
                assert((head + shown.take(i as int)).push(line@) =~= head + shown.take(i + 1));
            }
            lines.push(line);
            i += 1;
        }
        proof {
            assert(shown.take(shown.len() as int) =~= shown);
        }
    } else {
        proof {
            assert(head + shown =~= head);
        }
    }
    let ghost before = views(lines@);
    let measured = match plan.filesystem_reclaimed_bytes {
        Some(bytes) => cat2(decimal_text(bytes).as_str(), " bytes"),
        None => "not measured".to_owned(),
    };
    let removed = cat6(
        "Removed: ",
        decimal_text(plan.removed_paths).as_str(),
        " paths, ",
        decimal_text(plan.removed_files).as_str(),
        " files; filesystem reclaim: ",
        measured.as_str(),
    );
    proof {
        lemma_views_push(lines@, removed);
        assert(before.push(removed@) =~= before + seq![removed@]);
    }
    lines.push(removed);
    let ghost middle = views(lines@);
    let ghost kept = plan.protected@.map_values(|text: String| "Protected: "@ + text@);
    let mut j: usize = 0;
    proof {
        assert(middle + kept.take(0) =~= middle);
    }
    while j < plan.protected.len()
        invariant
            j <= plan.protected.len(),
            kept == plan.protected@.map_values(|text: String| "Protected: "@ + text@),
            views(lines@) == middle + kept.take(j as int),
        decreases plan.protected.len() - j,
    {
        let line = cat2("Protected: ", plan.protected[j].as_str());
        proof {
            assert(kept[j as int] == line@);
            lemma_views_push(lines@, line);
            assert((middle + kept.take(j as int)).push(line@) =~= middle + kept.take(j + 1));
        }
        lines.push(line);
        j += 1;
    }
    proof {
        assert(kept.take(kept.len() as int) =~= kept);
    }
    let ghost last = views(lines@);
    if plan.filesystem_reclaimed_bytes.is_none() && !dry_run {
        let ghost roots = plan.filesystem_reclaimed_by_root@.map_values(
            |root: (String, u64)| root_line(root),
        );
        let mut k: usize = 0;
        proof {
            assert(last + roots.take(0) =~= last);
        }
        while k < plan.filesystem_reclaimed_by_root.len()
            invariant
                k <= plan.filesystem_reclaimed_by_root.len(),
                roots == plan.filesystem_reclaimed_by_root@.map_values(
                    |root: (String, u64)| root_line(root),
                ),
                views(lines@) == last + roots.take(k as int),
            decreases plan.filesystem_reclaimed_by_root.len() - k,
        {
            let root = &plan.filesystem_reclaimed_by_root[k];
            let line = cat5(
                "Filesystem reclaim at ",
                root.0.as_str(),
                ": ",
                decimal_text(root.1).as_str(),
                " bytes",
            );
            proof {
                assert(roots[k as int] == line@);
                lemma_views_push(lines@, line);
                assert((last + roots.take(k as int)).push(line@) =~= last + roots.take(k + 1));
            }
            lines.push(line);
            k += 1;
        }
        proof {
            assert(roots.take(roots.len() as int) =~= roots);
            assert(views(lines@) =~= prune_lines(*plan, dry_run));
        }
    } else {
        proof {
            assert(views(lines@) =~= prune_lines(*plan, dry_run));
        }
    }
    lines
}

/// What to do before storage is reclaimed.
#[derive(Debug, Clone, Copy, PartialEq, Eq, Structural)]
pub enum PruneConfirmation {
    Proceed,
    Ask,
    Refuse,
}

/// Whether the user is to be asked first: only before all of it goes for real and without consent
/// given; where nobody can be asked, it is refused.
pub fn prune_confirmation(args: &PruneArgs, interactive: bool) -> (result: PruneConfirmation)
    ensures
        result == if args.all && !args.dry_run && !args.yes {
            if interactive {
                PruneConfirmation::Ask
            } else {
                PruneConfirmation::Refuse
            }
        } else {
            PruneConfirmation::Proceed
        },
{
    if args.all && !args.dry_run && !args.yes {
        if interactive {
            PruneConfirmation::Ask
        } else {
            PruneConfirmation::Refuse
        }
    } else {
        PruneConfirmation::Proceed
    }
}

/// Whether an answer is consent.
pub fn prune_consent(answer: &str) -> (result: bool)
    ensures
        result == (ascii_lower(trimmed(answer@)) == ascii_lower("yes"@)),
{
    same_ignoring_case(trim(answer).as_str(), "yes")
}

/// A directory under that of the models whose contents may go, and what they are called.
#[derive(Debug)]
pub struct PruneFolder {
    pub name: &'static str,
    pub category: &'static str,
}

/// The folders of models to empty. Only those that the server made are emptied, and without a reset
/// only what was left behind.
pub fn model_prune_folders(all: bool) -> (result: Vec<PruneFolder>)
    ensures
        all ==> result@.len() == 3 && result@[0].name@ == "huggingface"@ && result@[1].name@
            == "imports"@ && result@[2].name@ == ".norted-staging"@ && forall|i: int|
            0 <= i < 3 ==> (#[trigger] result@[i]).category@ == "managed model acquisitions"@,
        !all ==> result@.len() == 1 && result@[0].name@ == ".norted-staging"@
            && result@[0].category@ == "abandoned model staging"@,
{
    if all {
        vec![
            PruneFolder { name: "huggingface", category: "managed model acquisitions" },
            PruneFolder { name: "imports", category: "managed model acquisitions" },
            PruneFolder { name: ".norted-staging", category: "managed model acquisitions" },
        ]
    } else {
        vec![PruneFolder { name: ".norted-staging", category: "abandoned model staging" }]
    }
}

/// Whether an entry among unfinished downloads may go: all but the locks.
pub fn is_unfinished_download(name: &str) -> (result: bool)
    ensures
        result == (name@ != "locks"@),
{
    !same(name, "locks")
}

/// Whether an entry among the runtimes goes in a reset: all but the locks.
pub fn is_reset_runtime_entry(name: &str) -> (result: bool)
    ensures
        result == (name@ != ".locks"@),
{
    !same(name, ".locks")
}

/// A version is numbered only where it is digits and dots behind its letters, and a plain number is.
pub proof fn law_numbered_versions(version: Seq<char>, n: nat, at: int)
    ensures
        is_numbered(decimal(n)),
        is_numbered(seq!['v'] + decimal(n)),
        version.len() > 0 && is_digit(version[0]) && 0 <= at < version.len() && !is_digit(
            version[at],
        ) && version[at] != '.' ==> !is_numbered(version),
        !is_numbered(Seq::empty()),
{
    crate::versions::law_decimals_are_read_back(n);
    let text = decimal(n);
    assert(is_digit(text[0]));
    crate::versions::lemma_no_letters(seq!['v'] + text, text);
    if exists|k: int| crate::text::first_at(text, '.', k) {
        let k = choose|k: int| crate::text::first_at(text, '.', k);
        assert(is_digit(text[k]));
    }
    assert(pieces(text, '.') =~= seq![text]);
    assert(all_digits(pieces(text, '.')[0]));
    if version.len() > 0 && is_digit(version[0]) && 0 <= at < version.len() && is_numbered(version) {
        let parts = pieces(version, '.');
        crate::text::law_pieces_make_the_text(version, '.');
        assert forall|i: int, k: int|
            0 <= i < parts.len() && 0 <= k < parts[i].len() implies is_digit(
            #[trigger] parts[i][k],
        ) by {
            assert(all_digits(parts[i]));
        }
        crate::versions::lemma_joined_digits(parts, at);
    }
}

/// The files of a plan are the sum of those of its entries.
pub proof fn law_planned_files_are_summed(entries: Seq<PruneEntry>, next: PruneEntry)
    ensures
        total_files(entries.push(next)) == total_files(entries) + next.files,
        total_files(Seq::empty()) == 0,
{
    assert(entries.push(next).drop_last() =~= entries);
    assert(entries.push(next).last() == next);
}

/// A plan is told with what it would remove, where that is not done; with what was removed; and with what is
/// protected and why.
pub proof fn law_plans_are_told(plan: PrunePlan, dry_run: bool, i: int)
    ensures
        ({
            let lines = prune_lines(plan, dry_run);
            let planned = if dry_run {
                plan.entries@.len()
            } else {
                0
            };
            &&& lines[0] == "Prune mode: "@ + plan.mode@ + if dry_run {
                " (dry-run)"@
            } else {
                ""@
            }
            &&& dry_run && 0 <= i < plan.entries@.len() ==> lines[3 + i] == "  "@
                + plan.entries@[i].category@ + ": "@ + plan.entries@[i].path@ + " ("@ + decimal(
                plan.entries@[i].expected_bytes as nat,
            ) + " bytes)"@
            &&& 0 <= i < plan.protected@.len() ==> lines[4 + planned + i] == "Protected: "@
                + plan.protected@[i]@
            &&& lines.len() == 4 + planned + plan.protected@.len() + if dry_run
                || plan.filesystem_reclaimed_bytes is Some {
                0
            } else {
                plan.filesystem_reclaimed_by_root@.len()
            }
        }),
{
}

} // verus!
