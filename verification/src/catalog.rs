//! Runtimes that providers publish: how well they fit, how they are listed, and what they offer to
//! installed ones.
use vstd::prelude::*;
use vstd::string::*;

use crate::duplicate::{duplicate_option, lemma_views_push, optional, views, Duplicate};
use crate::order::{compare_u64, number_order, text_order, Order};
use crate::outside::{quoted, quoted_text};
use crate::runtimes::{
    combine_compatibility, AvailableRuntime, AvailableView, CompatibilityView, InstalledRuntime,
    PackErrorView, RuntimeAcquisitionMethod, RuntimeAcquisitionPlan, RuntimeCompatibility,
    RuntimePackError, RuntimeReleaseChannel, RuntimeView,
};
use crate::selections::{selected_for, RuntimeSelections, SelectionsView};
use crate::sorting::{order_of, sort, sorted, Precedes};
use crate::table::Table;
use crate::text::{cat2, cat3, compare_text, contains_text, same};
use crate::updates::{
    compare_source_update_candidates, compare_times, ensure_catalog_provenance_matches,
    followed_channel, history_state, offered, on_line, provenance_conflict, q27_member, q27_release,
    q27_semantic_release_identity, recipe_order, referenced, same_update_line, semantic_release_update_state,
    semantic_state, settled, source_candidate_order, source_history_update_state,
    source_recipe_ordering, still_published, time_order, update_channel_matches, GitHubCompare,
    RuntimeUpdatePreference, RuntimeUpdateState, UpdateView,
};
use crate::versions::{compare_versions, law_versions_are_ordered, version_order};

verus! {

/// What an engine says of a runtime: why it does not manage runtimes here, and why it does not take
/// this one, where it does not.
#[derive(Debug)]
pub struct RuntimeAnswers {
    pub management: Option<String>,
    pub runtime: Option<String>,
}

#[verifier::ext_equal]
pub struct AnswersView {
    pub management: Option<Seq<char>>,
    pub runtime: Option<Seq<char>>,
}

impl View for RuntimeAnswers {
    type V = AnswersView;

    open spec fn view(&self) -> AnswersView {
        AnswersView {
            management: optional(self.management),
            runtime: optional(self.runtime),
        }
    }
}

/// How a runtime fits, given what its engine says and how it fits where the engine takes it. An
/// engine that is not registered takes none.
pub open spec fn judged(
    answers: Option<AnswersView>,
    otherwise: CompatibilityView,
) -> CompatibilityView {
    match answers {
        None => CompatibilityView::Incompatible("engine adapter is not registered"@),
        Some(answers) => match (answers.management, answers.runtime) {
            (Some(reason), _) => CompatibilityView::Incompatible(reason),
            (None, Some(reason)) => CompatibilityView::Incompatible(reason),
            (None, None) => otherwise,
        },
    }
}

pub fn judge(answers: &Option<RuntimeAnswers>, otherwise: &RuntimeCompatibility) -> (result:
    RuntimeCompatibility)
    ensures
        result@ == judged(optional(*answers), otherwise@),
{
    match answers {
        None => RuntimeCompatibility::Incompatible("engine adapter is not registered".to_owned()),
        Some(answers) => match (&answers.management, &answers.runtime) {
            (Some(reason), _) => RuntimeCompatibility::Incompatible(reason.clone()),
            (None, Some(reason)) => RuntimeCompatibility::Incompatible(reason.clone()),
            (None, None) => otherwise.duplicate(),
        },
    }
}

/// A published runtime and how it fits this host.
#[derive(Debug)]
pub struct RuntimeCatalogEntry {
    pub available: AvailableRuntime,
    pub compatibility: RuntimeCompatibility,
}

#[verifier::ext_equal]
pub struct EntryView {
    pub available: AvailableView,
    pub compatibility: CompatibilityView,
}

impl View for RuntimeCatalogEntry {
    type V = EntryView;

    open spec fn view(&self) -> EntryView {
        EntryView { available: self.available@, compatibility: self.compatibility@ }
    }
}

/// A found runtime, whether it is installed and what it is chosen for.
#[derive(Debug)]
pub struct RuntimeSearchResult {
    pub entry: RuntimeCatalogEntry,
    pub installed: bool,
    pub selected_for: Vec<String>,
}

#[verifier::ext_equal]
pub struct ResultView {
    pub entry: EntryView,
    pub installed: bool,
    pub selected_for: Seq<Seq<char>>,
}

impl View for RuntimeSearchResult {
    type V = ResultView;

    open spec fn view(&self) -> ResultView {
        ResultView {
            entry: self.entry@,
            installed: self.installed,
            selected_for: views(self.selected_for@),
        }
    }
}

/// Why a provider could not be asked, and whether what it said before is used in its place.
#[derive(Debug)]
pub struct RuntimeProviderError {
    pub provider_id: String,
    pub message: String,
    pub using_stale_cache: bool,
}

#[verifier::ext_equal]
pub struct ProviderErrorView {
    pub provider_id: Seq<char>,
    pub message: Seq<char>,
    pub using_stale_cache: bool,
}

impl View for RuntimeProviderError {
    type V = ProviderErrorView;

    open spec fn view(&self) -> ProviderErrorView {
        ProviderErrorView {
            provider_id: self.provider_id@,
            message: self.message@,
            using_stale_cache: self.using_stale_cache,
        }
    }
}

/// What a search found.
#[derive(Debug)]
pub struct RuntimeSearchSnapshot {
    pub results: Vec<RuntimeSearchResult>,
    pub provider_errors: Vec<RuntimeProviderError>,
    pub fetched_at_unix: Option<i64>,
}

#[verifier::ext_equal]
pub struct SearchView {
    pub results: Seq<ResultView>,
    pub provider_errors: Seq<ProviderErrorView>,
    pub fetched_at_unix: Option<i64>,
}

impl View for RuntimeSearchSnapshot {
    type V = SearchView;

    open spec fn view(&self) -> SearchView {
        SearchView {
            results: views(self.results@),
            provider_errors: views(self.provider_errors@),
            fetched_at_unix: self.fetched_at_unix,
        }
    }
}

/// How a published runtime serves the model that is searched for: how much its engine prefers it, a
/// lower number first, and how it fits.
#[derive(Debug)]
pub struct ModelFit {
    pub preference: u64,
    pub compatibility: RuntimeCompatibility,
}

#[verifier::ext_equal]
pub struct FitView {
    pub preference: u64,
    pub compatibility: CompatibilityView,
}

impl View for ModelFit {
    type V = FitView;

    open spec fn view(&self) -> FitView {
        FitView { preference: self.preference, compatibility: self.compatibility@ }
    }
}

/// A found entry with what is known of it. One that is built from source has a key, shared by those
/// that need the same tools.
#[derive(Debug)]
pub struct SearchCandidate {
    pub entry: RuntimeCatalogEntry,
    pub answers: Option<RuntimeAnswers>,
    pub model: Option<ModelFit>,
    pub prerequisite_key: Option<String>,
}

#[verifier::ext_equal]
pub struct CandidateView {
    pub entry: EntryView,
    pub answers: Option<AnswersView>,
    pub model: Option<FitView>,
    pub prerequisite_key: Option<Seq<char>>,
}

impl View for SearchCandidate {
    type V = CandidateView;

    open spec fn view(&self) -> CandidateView {
        CandidateView {
            entry: self.entry@,
            answers: optional(self.answers),
            model: optional(self.model),
            prerequisite_key: optional(self.prerequisite_key),
        }
    }
}

impl CandidateView {
    /// How the entry fits before the tools to build it are looked for.
    pub open spec fn judged(self) -> CompatibilityView {
        judged(
            self.answers,
            match self.model {
                Some(fit) => self.entry.compatibility.combined(fit.compatibility),
                None => self.entry.compatibility,
            },
        )
    }

    /// The key to look for tools by, where that matters.
    pub open spec fn wanted_key(self) -> Option<Seq<char>> {
        if self.judged().usable() {
            self.prerequisite_key
        } else {
            None
        }
    }

    pub open spec fn assessed(
        self,
        evaluated: Map<Seq<char>, CompatibilityView>,
    ) -> CompatibilityView {
        match self.wanted_key() {
            Some(key) if evaluated.contains_key(key) => self.judged().combined(evaluated[key]),
            _ => self.judged(),
        }
    }

    /// How much the engine prefers the entry, the least where it was not asked.
    pub open spec fn preference(self) -> int {
        match (self.answers, self.model) {
            (Some(AnswersView { management: None, runtime: None }), Some(fit)) => {
                fit.preference as int
            },
            _ => 65535,
        }
    }
}

impl SearchCandidate {
    fn judge(&self) -> (result: RuntimeCompatibility)
        ensures
            result@ == self@.judged(),
    {
        let otherwise = match &self.model {
            Some(fit) => combine_compatibility(
                self.entry.compatibility.duplicate(),
                fit.compatibility.duplicate(),
            ),
            None => self.entry.compatibility.duplicate(),
        };
        judge(&self.answers, &otherwise)
    }

    pub fn wanted_prerequisites(&self) -> (result: Option<String>)
        ensures
            optional(result) == self@.wanted_key(),
    {
        if self.judge().is_usable() {
            duplicate_option(&self.prerequisite_key)
        } else {
            None
        }
    }

    pub fn assess(&self, evaluated: &Table<RuntimeCompatibility>) -> (result: RuntimeCompatibility)
        ensures
            result@ == self@.assessed(evaluated@),
    {
        let judged = self.judge();
        match self.wanted_prerequisites() {
            Some(key) => match evaluated.get(key.as_str()) {
                Some(found) => combine_compatibility(judged, found.duplicate()),
                None => judged,
            },
            None => judged,
        }
    }

    fn engine_preference(&self) -> (result: u64)
        ensures
            result == self@.preference(),
    {
        match (&self.answers, &self.model) {
            (Some(answers), Some(fit)) => match (&answers.management, &answers.runtime) {
                (None, None) => fit.preference,
                _ => 65535,
            },
            _ => 65535,
        }
    }
}

/// The keys to look for tools by, each once, as they first come up.
pub open spec fn wanted_keys(candidates: Seq<CandidateView>) -> Seq<Seq<char>>
    decreases candidates.len(),
{
    if candidates.len() == 0 {
        Seq::empty()
    } else {
        let before = wanted_keys(candidates.drop_last());
        match candidates.last().wanted_key() {
            Some(key) if !before.contains(key) => before.push(key),
            _ => before,
        }
    }
}

pub fn prerequisite_keys(candidates: &Vec<SearchCandidate>) -> (result: Vec<String>)
    ensures
        views(result@) == wanted_keys(views(candidates@)),
{
    let ghost all = views(candidates@);
    let mut result: Vec<String> = Vec::new();
    let mut i: usize = 0;
    proof {
        assert(views(result@) =~= wanted_keys(all.take(0)));
    }
    while i < candidates.len()
        invariant
            i <= candidates.len(),
            all == views(candidates@),
            views(result@) == wanted_keys(all.take(i as int)),
        decreases candidates.len() - i,
    {
        let wanted = candidates[i].wanted_prerequisites();
        proof {
            assert(all.take(i + 1).drop_last() =~= all.take(i as int));
            assert(all.take(i + 1).last() == candidates@[i as int]@);
        }
        match wanted {
            Some(key) => {
                if !contains_text(&result, key.as_str()) {
                    proof {
                        lemma_views_push(result@, key);
                    }
                    result.push(key);
                }
            },
            None => {},
        }
        i += 1;
    }
    proof {
        assert(all.take(all.len() as int) =~= all);
    }
    result
}

/// An entry in the list that a search for a model makes.
#[derive(Debug)]
pub struct RankedEntry {
    pub entry: RuntimeCatalogEntry,
    pub preference: u64,
}

#[verifier::ext_equal]
pub struct RankedView {
    pub entry: EntryView,
    pub preference: u64,
}

impl View for RankedEntry {
    type V = RankedView;

    open spec fn view(&self) -> RankedView {
        RankedView { entry: self.entry@, preference: self.preference }
    }
}

/// How two found entries compare: the better fit first, then what the engine prefers, then by engine
/// and variant, then the newer.
pub open spec fn found_order(a: RankedView, b: RankedView) -> Order {
    number_order(a.entry.compatibility.rank(), b.entry.compatibility.rank()).or(
        number_order(a.preference as int, b.preference as int),
    ).or(text_order(a.entry.available.identity.engine_id, b.entry.available.identity.engine_id)).or(
        text_order(a.entry.available.identity.variant, b.entry.available.identity.variant),
    ).or(
        time_order(b.entry.available.published_at_unix, a.entry.available.published_at_unix),
    )
}

impl Precedes for RankedEntry {
    open spec fn before(a: RankedView, b: RankedView) -> bool {
        found_order(a, b) == Order::Less
    }

    fn precedes(&self, other: &RankedEntry) -> (result: bool) {
        let left = &self.entry.available;
        let right = &other.entry.available;
        match compare_u64(
            self.entry.compatibility.preference_rank(),
            other.entry.compatibility.preference_rank(),
        ).and_next(compare_u64(self.preference, other.preference)).and_next(
            compare_text(left.identity.engine_id.as_str(), right.identity.engine_id.as_str()),
        ).and_next(
            compare_text(left.identity.variant.as_str(), right.identity.variant.as_str()),
        ).and_next(compare_times(right.published_at_unix, left.published_at_unix)) {
            Order::Less => true,
            _ => false,
        }
    }
}

/// The entries of a search, each as it fits.
pub open spec fn ranked_entries(
    candidates: Seq<CandidateView>,
    evaluated: Map<Seq<char>, CompatibilityView>,
) -> Seq<RankedView> {
    candidates.map_values(
        |candidate: CandidateView|
            RankedView {
                entry: EntryView {
                    compatibility: candidate.assessed(evaluated),
                    ..candidate.entry
                },
                preference: candidate.preference() as u64,
            },
    )
}

/// What a search finds, in the order that it is shown in.
pub open spec fn found(
    candidates: Seq<CandidateView>,
    evaluated: Map<Seq<char>, CompatibilityView>,
    for_model: bool,
    installed: Seq<Seq<char>>,
    selections: SelectionsView,
) -> Seq<ResultView> {
    let entries = ranked_entries(candidates, evaluated);
    let shown = if for_model {
        sorted(entries, |a: RankedView, b: RankedView| found_order(a, b) == Order::Less)
    } else {
        entries
    };
    shown.map_values(
        |ranked: RankedView|
            ResultView {
                entry: ranked.entry,
                installed: installed.contains(ranked.entry.available.runtime_id),
                selected_for: selections.uses(ranked.entry.available.runtime_id),
            },
    )
}

fn rank_entries(
    candidates: Vec<SearchCandidate>,
    evaluated: &Table<RuntimeCompatibility>,
) -> (result: Vec<RankedEntry>)
    ensures
        views(result@) == ranked_entries(views(candidates@), evaluated@),
{
    let ghost all = views(candidates@);
    let ghost goal = ranked_entries(all, evaluated@);
    let mut rest = candidates;
    let mut result: Vec<RankedEntry> = Vec::new();
    let ghost total = all.len();
    proof {
        assert(all.take(total as int) =~= all);
    }
    while rest.len() > 0
        invariant
            total == all.len(),
            rest.len() + result.len() == total,
            views(rest@) == all.take(rest.len() as int),
            goal == ranked_entries(all, evaluated@),
            views(result@).reverse() =~= goal.skip(rest.len() as int),
        decreases rest.len(),
    {
        let ghost r = views(rest@);
        let ghost done = views(result@);
        match rest.pop() {
            Some(candidate) => {
                let compatibility = candidate.assess(evaluated);
                let preference: u64 = candidate.engine_preference();
                let ranked = RankedEntry {
                    entry: RuntimeCatalogEntry {
                        available: candidate.entry.available,
                        compatibility,
                    },
                    preference,
                };
                let ghost view = ranked@;
                result.push(ranked);
                proof {
                    let at = rest@.len() as int;
                    assert(views(rest@) =~= r.drop_last());
                    assert(r.drop_last() =~= all.take(at));
                    assert(candidate@ == r.last());
                    assert(r.last() == all[at]);
                    assert(goal[at] == view);
                    assert(views(result@) =~= done.push(view));
                    assert(done.push(view).reverse() =~= seq![view] + done.reverse());
                    assert(goal.skip(at) =~= seq![view] + goal.skip(at + 1));
                }
            },
            None => {},
        }
    }
    proof {
        assert(goal.skip(0) =~= goal);
    }
    reverse_entries(result)
}

fn reverse_entries(list: Vec<RankedEntry>) -> (result: Vec<RankedEntry>)
    ensures
        views(result@) == views(list@).reverse(),
{
    let ghost all = views(list@);
    let mut rest = list;
    let mut result: Vec<RankedEntry> = Vec::new();
    proof {
        assert(all.take(all.len() as int) =~= all);
    }
    while rest.len() > 0
        invariant
            rest.len() + result.len() == all.len(),
            views(rest@) == all.take(rest.len() as int),
            views(result@) =~= all.reverse().take(result.len() as int),
        decreases rest.len(),
    {
        let ghost r = views(rest@);
        let ghost done = views(result@);
        match rest.pop() {
            Some(item) => {
                let ghost view = item@;
                result.push(item);
                proof {
                    assert(views(rest@) =~= r.drop_last());
                    assert(r.drop_last() =~= all.take(rest@.len() as int));
                    assert(view == r.last());
                    assert(views(result@) =~= done.push(view));
                    assert(all.reverse()[done.len() as int] == view);
                }
            },
            None => {},
        }
    }
    proof {
        assert(all.reverse().take(all.len() as int) =~= all.reverse());
    }
    result
}

pub fn search_results(
    candidates: Vec<SearchCandidate>,
    evaluated: &Table<RuntimeCompatibility>,
    for_model: bool,
    installed: &Vec<String>,
    selections: &RuntimeSelections,
) -> (result: Vec<RuntimeSearchResult>)
    ensures
        views(result@) == found(
            views(candidates@),
            evaluated@,
            for_model,
            views(installed@),
            selections@,
        ),
{
    let entries = rank_entries(candidates, evaluated);
    proof {
        assert(order_of::<RankedEntry>() =~= (|a: RankedView, b: RankedView|
            found_order(a, b) == Order::Less));
    }
    let shown = if for_model {
        sort(entries)
    } else {
        entries
    };
    let mut rest = reverse_entries(shown);
    let ghost all = views(shown@);
    let ghost goal = found(
        views(candidates@),
        evaluated@,
        for_model,
        views(installed@),
        selections@,
    );
    let mut result: Vec<RuntimeSearchResult> = Vec::new();
    proof {
        assert(all.reverse().take(all.len() as int) =~= all.reverse());
    }
    while rest.len() > 0
        invariant
            rest.len() + result.len() == all.len(),
            views(rest@) == all.reverse().take(rest.len() as int),
            goal == all.map_values(
                |ranked: RankedView|
                    ResultView {
                        entry: ranked.entry,
                        installed: views(installed@).contains(ranked.entry.available.runtime_id),
                        selected_for: selections@.uses(ranked.entry.available.runtime_id),
                    },
            ),
            views(result@) =~= goal.take(result.len() as int),
        decreases rest.len(),
    {
        let ghost r = views(rest@);
        let ghost done = views(result@);
        match rest.pop() {
            Some(ranked) => {
                let entry = ranked.entry;
                let installed_here = contains_text(installed, entry.available.runtime_id.as_str());
                let uses = selected_for(selections, entry.available.runtime_id.as_str());
                let found = RuntimeSearchResult {
                    entry,
                    installed: installed_here,
                    selected_for: uses,
                };
                let ghost view = found@;
                result.push(found);
                proof {
                    let at = done.len() as int;
                    assert(views(rest@) =~= r.drop_last());
                    assert(r.drop_last() =~= all.reverse().take(rest@.len() as int));
                    assert(ranked@ == r.last());
                    assert(r.last() == all.reverse()[rest@.len() as int]);
                    assert(ranked@ == all[at]);
                    assert(goal[at] == view);
                    assert(views(result@) =~= done.push(view));
                    assert(goal.take(at + 1) =~= goal.take(at).push(view));
                }
            },
            None => {},
        }
    }
    proof {
        assert(goal.take(all.len() as int) =~= goal);
    }
    result
}

/// Whether a published runtime may be installed: only where it fits.
pub fn admit_installation(
    runtime_id: &str,
    entry: &RuntimeCatalogEntry,
    answers: &Option<RuntimeAnswers>,
) -> (result: Result<(), RuntimePackError>)
    ensures
        match (result, judged(optional(*answers), entry@.compatibility)) {
            (Err(error), CompatibilityView::Incompatible(reason)) => error@
                == PackErrorView::Incompatible { runtime_id: runtime_id@, reason },
            (Ok(()), CompatibilityView::Incompatible(_)) => false,
            (Ok(()), _) => true,
            (Err(_), _) => false,
        },
{
    match judge(answers, &entry.compatibility) {
        RuntimeCompatibility::Incompatible(reason) => Err(
            RuntimePackError::Incompatible { runtime_id: runtime_id.to_owned(), reason },
        ),
        _ => Ok(()),
    }
}

/// The last of the greatest among the eligible items of a list, by its place.
pub open spec fn latest<T>(
    list: Seq<T>,
    eligible: spec_fn(T) -> bool,
    order: spec_fn(T, T) -> Order,
) -> Option<int>
    decreases list.len(),
{
    if list.len() == 0 {
        None
    } else {
        let before = latest(list.drop_last(), eligible, order);
        if !eligible(list.last()) {
            before
        } else {
            match before {
                Some(at) if order(list[at], list.last()) == Order::Greater => Some(at),
                _ => Some(list.len() - 1),
            }
        }
    }
}

/// What is found as the latest is eligible; nothing is found only where nothing is; and nothing
/// eligible is above it, where the order is one.
pub proof fn law_latest<T>(
    list: Seq<T>,
    eligible: spec_fn(T) -> bool,
    order: spec_fn(T, T) -> Order,
)
    ensures
        match latest(list, eligible, order) {
            Some(at) => 0 <= at < list.len() && eligible(list[at]),
            None => forall|i: int| 0 <= i < list.len() ==> !eligible(#[trigger] list[i]),
        },
        (forall|a: T, b: T| #[trigger] order(b, a) == order(a, b).flipped()) && (forall|
            a: T,
            b: T,
            c: T,
        |
            #[trigger] order(a, b) != Order::Greater && #[trigger] order(b, c) != Order::Greater
                ==> order(a, c) != Order::Greater) ==> match latest(list, eligible, order) {
            Some(at) => forall|i: int|
                0 <= i < list.len() && eligible(#[trigger] list[i]) ==> order(list[at], list[i])
                    != Order::Less,
            None => true,
        },
    decreases list.len(),
{
    if list.len() > 0 {
        let rest = list.drop_last();
        let last = list.last();
        law_latest(rest, eligible, order);
        assert(forall|i: int| 0 <= i < rest.len() ==> rest[i] == list[i]);
        match latest(list, eligible, order) {
            Some(at) => {
                assert(0 <= at < list.len() && eligible(list[at]));
                if (forall|a: T, b: T| #[trigger] order(b, a) == order(a, b).flipped()) && (forall|
                    a: T,
                    b: T,
                    c: T,
                |
                    #[trigger] order(a, b) != Order::Greater && #[trigger] order(b, c)
                        != Order::Greater ==> order(a, c) != Order::Greater) {
                    assert forall|i: int|
                        0 <= i < list.len() && eligible(#[trigger] list[i]) implies order(
                        list[at],
                        list[i],
                    ) != Order::Less by {
                        let before = latest(rest, eligible, order);
                        assert(order(list[i], list[at]) == order(list[at], list[i]).flipped());
                        if i < rest.len() {
                            assert(eligible(rest[i]));
                            assert(before is Some);
                            let best = rest[before->0];
                            assert(order(best, rest[i]) != Order::Less);
                            assert(order(rest[i], best) == order(best, rest[i]).flipped());
                            if at == list.len() - 1 && eligible(last) {
                                assert(order(best, last) != Order::Greater);
                                assert(order(rest[i], last) != Order::Greater);
                            }
                        } else {
                            assert(eligible(last));
                            assert(order(last, last) == order(last, last).flipped());
                        }
                    }
                }
            },
            None => {
                assert forall|i: int| 0 <= i < list.len() implies !eligible(#[trigger] list[i]) by {
                    if i < rest.len() {
                        assert(!eligible(rest[i]));
                    }
                }
            },
        }
    }
}

/// Whether a found runtime can update one that was built from source: it fits, it is on the line, and
/// its recipe is not older.
pub open spec fn source_update(runtime: RuntimeView, result: ResultView) -> bool {
    &&& result.entry.compatibility.usable()
    &&& on_line(runtime, result.entry.available)
    &&& recipe_order(runtime.variant(true), result.entry.available.variant(true)) != Order::Less
}

/// Whether a found runtime is in a channel.
pub open spec fn in_channel(
    preference: RuntimeUpdatePreference,
    published: Option<AvailableView>,
    result: ResultView,
) -> bool {
    result.entry.available.channels.contains(followed_channel(preference, published))
}

/// The candidate to update a runtime that was built from source.
pub open spec fn source_candidate(
    runtime: RuntimeView,
    preference: RuntimeUpdatePreference,
    results: Seq<ResultView>,
) -> Option<int> {
    latest(
        results,
        |result: ResultView|
            source_update(runtime, result) && (preference == RuntimeUpdatePreference::Pinned
                || in_channel(preference, None, result)),
        |a: ResultView, b: ResultView|
            source_candidate_order(
                runtime.manifest.identity,
                a.entry.available,
                b.entry.available,
            ),
    )
}

pub open spec fn source_channel_available(
    runtime: RuntimeView,
    preference: RuntimeUpdatePreference,
    results: Seq<ResultView>,
) -> bool {
    exists|i: int|
        0 <= i < results.len() && source_update(runtime, #[trigger] results[i]) && in_channel(
            preference,
            None,
            results[i],
        )
}

/// What is told where a provider could not be asked.
pub open spec fn provider_state(error: ProviderErrorView) -> UpdateView {
    if error.using_stale_cache {
        UpdateView::ProviderError(error.message)
    } else {
        UpdateView::CatalogUnavailable(error.message)
    }
}

/// The first error of a provider.
pub open spec fn error_of(errors: Seq<ProviderErrorView>, provider_id: Seq<char>) -> Option<
    ProviderErrorView,
>
    decreases errors.len(),
{
    if errors.len() == 0 {
        None
    } else if errors[0].provider_id == provider_id {
        Some(errors[0])
    } else {
        error_of(errors.skip(1), provider_id)
    }
}

fn find_error<'a>(errors: &'a Vec<RuntimeProviderError>, provider_id: &str) -> (result: Option<
    &'a RuntimeProviderError,
>)
    ensures
        referenced(result) == error_of(views(errors@), provider_id@),
{
    let ghost all = views(errors@);
    let mut i: usize = 0;
    proof {
        assert(all.skip(0) =~= all);
    }
    while i < errors.len()
        invariant
            i <= errors.len(),
            all == views(errors@),
            error_of(all, provider_id@) == error_of(all.skip(i as int), provider_id@),
        decreases errors.len() - i,
    {
        proof {
            assert(all.skip(i as int)[0] == errors@[i as int]@);
            assert(all.skip(i as int).skip(1) =~= all.skip(i + 1));
        }
        if same(errors[i].provider_id.as_str(), provider_id) {
            return Some(&errors[i]);
        }
        i += 1;
    }
    None
}

fn tell_provider_error(error: &RuntimeProviderError) -> (result: RuntimeUpdateState)
    ensures
        result@ == provider_state(error@),
{
    if error.using_stale_cache {
        RuntimeUpdateState::ProviderError(error.message.clone())
    } else {
        RuntimeUpdateState::CatalogUnavailable(error.message.clone())
    }
}

/// What a check for updates does next.
#[derive(Debug)]
pub enum UpdateStep {
    /// Nothing: this is known.
    Decided(RuntimeUpdateState),
    /// Compares the histories of the installed source and of the candidate's, which is at this place
    /// in the catalog.
    CompareHistory { candidate: usize },
    /// Asks the provider whether it still publishes the installed runtime.
    LookUp,
    /// Looks at the entry of the catalog at this place, which is the installed runtime.
    Compare { published: usize },
}

#[verifier::ext_equal]
pub enum StepView {
    Decided(UpdateView),
    CompareHistory { candidate: int },
    LookUp,
    Compare { published: int },
}

impl View for UpdateStep {
    type V = StepView;

    open spec fn view(&self) -> StepView {
        match self {
            UpdateStep::Decided(state) => StepView::Decided(state@),
            UpdateStep::CompareHistory { candidate } => StepView::CompareHistory {
                candidate: *candidate as int,
            },
            UpdateStep::LookUp => StepView::LookUp,
            UpdateStep::Compare { published } => StepView::Compare { published: *published as int },
        }
    }
}

pub open spec fn source_step(
    runtime: RuntimeView,
    preference: RuntimeUpdatePreference,
    catalog: SearchView,
) -> StepView {
    let identity = runtime.manifest.identity;
    match error_of(catalog.provider_errors, identity.package.provider_id) {
        Some(error) => StepView::Decided(provider_state(error)),
        None => if !source_channel_available(runtime, preference, catalog.results) && preference
            != RuntimeUpdatePreference::Pinned {
            StepView::Decided(UpdateView::ChannelUnavailable { preference })
        } else {
            match source_candidate(runtime, preference, catalog.results) {
                None => StepView::Decided(UpdateView::NoLongerPublished),
                Some(at) => {
                    let candidate = catalog.results[at].entry.available;
                    if runtime.manifest.source_build is None {
                        StepView::Decided(missing_source())
                    } else if candidate.source() is Some {
                        StepView::CompareHistory { candidate: at }
                    } else if q27_release(identity) && q27_release(candidate.identity) {
                        StepView::Decided(semantic_state(preference, identity, candidate))
                    } else {
                        StepView::Decided(missing_source())
                    }
                },
            }
        },
    }
}

pub open spec fn missing_source() -> UpdateView {
    UpdateView::ProviderError(
        "source-built runtime or update candidate is missing source provenance"@,
    )
}

/// The first entry of the catalog that is a runtime.
pub open spec fn place_of(results: Seq<ResultView>, runtime_id: Seq<char>) -> Option<int>
    decreases results.len(),
{
    if results.len() == 0 {
        None
    } else {
        match place_of(results.drop_last(), runtime_id) {
            Some(at) => Some(at),
            None => if results.last().entry.available.runtime_id == runtime_id {
                Some(results.len() - 1)
            } else {
                None
            },
        }
    }
}

/// What a check for updates does first.
pub open spec fn first_step(
    runtime: RuntimeView,
    preference: RuntimeUpdatePreference,
    catalog: SearchView,
) -> StepView {
    let manifest = runtime.manifest;
    match manifest.acquisition_method {
        RuntimeAcquisitionMethod::ExternalBinary => StepView::Decided(UpdateView::Unmanaged),
        RuntimeAcquisitionMethod::SourceBuild => source_step(runtime, preference, catalog),
        _ => match place_of(catalog.results, manifest.runtime_id) {
            Some(at) => StepView::Compare { published: at },
            None => match error_of(
                catalog.provider_errors,
                manifest.identity.package.provider_id,
            ) {
                None => StepView::LookUp,
                Some(error) => StepView::Decided(provider_state(error)),
            },
        },
    }
}

fn is_source_update(runtime: &InstalledRuntime, result: &RuntimeSearchResult) -> (result_here: bool)
    ensures
        result_here == source_update(runtime@, result@),
{
    if !result.entry.compatibility.is_usable() || !same_update_line(
        runtime,
        &result.entry.available,
    ) {
        return false;
    }
    match source_recipe_ordering(
        &runtime.update_variant(true),
        &result.entry.available.update_variant(true),
    ) {
        Order::Less => false,
        _ => true,
    }
}

/// The channel of a source update and the candidate, from one walk over the catalog.
fn find_source_candidate(
    runtime: &InstalledRuntime,
    preference: RuntimeUpdatePreference,
    results: &Vec<RuntimeSearchResult>,
) -> (found: (bool, Option<usize>))
    ensures
        found.0 == source_channel_available(runtime@, preference, views(results@)),
        match (found.1, source_candidate(runtime@, preference, views(results@))) {
            (Some(i), Some(at)) => i == at && i < results@.len(),
            (None, None) => true,
            _ => false,
        },
{
    let ghost all = views(results@);
    let ghost eligible = |result: ResultView|
        source_update(runtime@, result) && (preference == RuntimeUpdatePreference::Pinned
            || in_channel(preference, None, result));
    let ghost order = |a: ResultView, b: ResultView|
        source_candidate_order(
            runtime@.manifest.identity,
            a.entry.available,
            b.entry.available,
        );
    let mut available = false;
    let mut best: Option<usize> = None;
    let mut i: usize = 0;
    while i < results.len()
        invariant
            i <= results.len(),
            all == views(results@),
            eligible == (|result: ResultView|
                source_update(runtime@, result) && (preference == RuntimeUpdatePreference::Pinned
                    || in_channel(preference, None, result))),
            order == (|a: ResultView, b: ResultView|
                source_candidate_order(
                    runtime@.manifest.identity,
                    a.entry.available,
                    b.entry.available,
                )),
            available == exists|k: int|
                0 <= k < i && source_update(runtime@, #[trigger] all[k]) && in_channel(
                    preference,
                    None,
                    all[k],
                ),
            match (best, latest(all.take(i as int), eligible, order)) {
                (Some(b), Some(at)) => b == at && b < i,
                (None, None) => true,
                _ => false,
            },
        decreases results.len() - i,
    {
        let result = &results[i];
        proof {
            assert(all[i as int] == result@);
            assert(all.take(i + 1).drop_last() =~= all.take(i as int));
            assert(all.take(i + 1).last() == result@);
        }
        if is_source_update(runtime, result) {
            let channel = update_channel_matches(preference, None, &result.entry.available);
            if channel {
                available = true;
            }
            if channel || preference == RuntimeUpdatePreference::Pinned {
                best = match best {
                    Some(at) => {
                        proof {
                            assert(all.take(i + 1)[at as int] == results@[at as int]@);
                        }
                        match compare_source_update_candidates(
                            &runtime.manifest.identity,
                            &results[at].entry.available,
                            &result.entry.available,
                        ) {
                            Order::Greater => Some(at),
                            _ => Some(i),
                        }
                    },
                    None => Some(i),
                };
            }
        }
        i += 1;
    }
    proof {
        assert(all.take(all.len() as int) =~= all);
    }
    (available, best)
}

fn find_published(results: &Vec<RuntimeSearchResult>, runtime_id: &str) -> (found: Option<usize>)
    ensures
        match (found, place_of(views(results@), runtime_id@)) {
            (Some(i), Some(at)) => i == at && i < results@.len(),
            (None, None) => true,
            _ => false,
        },
{
    let ghost all = views(results@);
    let mut found: Option<usize> = None;
    let mut i: usize = 0;
    while i < results.len()
        invariant
            i <= results.len(),
            all == views(results@),
            match (found, place_of(all.take(i as int), runtime_id@)) {
                (Some(b), Some(at)) => b == at && b < i,
                (None, None) => true,
                _ => false,
            },
        decreases results.len() - i,
    {
        proof {
            assert(all.take(i + 1).drop_last() =~= all.take(i as int));
            assert(all.take(i + 1).last() == results@[i as int]@);
        }
        if found.is_none() && same(results[i].entry.available.runtime_id.as_str(), runtime_id) {
            found = Some(i);
        }
        i += 1;
    }
    proof {
        assert(all.take(all.len() as int) =~= all);
    }
    found
}

/// What to do to learn whether a runtime has an update.
pub fn check_update(
    runtime: &InstalledRuntime,
    preference: RuntimeUpdatePreference,
    catalog: &RuntimeSearchSnapshot,
) -> (result: UpdateStep)
    ensures
        result@ == first_step(runtime@, preference, catalog@),
{
    let manifest = &runtime.manifest;
    match manifest.acquisition_method {
        RuntimeAcquisitionMethod::ExternalBinary => {
            return UpdateStep::Decided(RuntimeUpdateState::Unmanaged);
        },
        RuntimeAcquisitionMethod::SourceBuild => {},
        _ => {
            return match find_published(&catalog.results, manifest.runtime_id.as_str()) {
                Some(published) => UpdateStep::Compare { published },
                None => match find_error(
                    &catalog.provider_errors,
                    manifest.identity.package.provider_id.as_str(),
                ) {
                    None => UpdateStep::LookUp,
                    Some(error) => UpdateStep::Decided(tell_provider_error(error)),
                },
            };
        },
    }
    match find_error(
        &catalog.provider_errors,
        manifest.identity.package.provider_id.as_str(),
    ) {
        Some(error) => {
            return UpdateStep::Decided(tell_provider_error(error));
        },
        None => {},
    }
    let (available, candidate) = find_source_candidate(runtime, preference, &catalog.results);
    if !available && preference != RuntimeUpdatePreference::Pinned {
        return UpdateStep::Decided(RuntimeUpdateState::ChannelUnavailable { preference });
    }
    let at: usize = match candidate {
        Some(at) => at,
        None => {
            return UpdateStep::Decided(RuntimeUpdateState::NoLongerPublished);
        },
    };
    let found = &catalog.results[at].entry.available;
    proof {
        assert(catalog@.results[at as int] == catalog.results@[at as int]@);
    }
    let from_source = match &found.acquisition {
        RuntimeAcquisitionPlan::SourceBuild(_) => true,
        _ => false,
    };
    if manifest.source_build.is_some() {
        if from_source {
            return UpdateStep::CompareHistory { candidate: at };
        }
        if q27_semantic_release_identity(&manifest.identity) && q27_semantic_release_identity(
            &found.identity,
        ) {
            return UpdateStep::Decided(
                semantic_release_update_state(preference, &manifest.identity, found),
            );
        }
    }
    UpdateStep::Decided(
        RuntimeUpdateState::ProviderError(
            "source-built runtime or update candidate is missing source provenance".to_owned(),
        ),
    )
}

/// What the comparison of histories says.
pub open spec fn compared_state(
    runtime: RuntimeView,
    preference: RuntimeUpdatePreference,
    candidate: AvailableView,
    comparison: Result<GitHubCompare, Seq<char>>,
) -> UpdateView {
    match comparison {
        Ok(comparison) => history_state(
            preference,
            candidate.runtime_id,
            candidate.identity.version,
            comparison,
            recipe_order(runtime.variant(true), candidate.variant(true)),
        ),
        Err(error) => UpdateView::ProviderError(error),
    }
}

pub fn history_compared(
    runtime: &InstalledRuntime,
    preference: RuntimeUpdatePreference,
    candidate: &AvailableRuntime,
    comparison: Result<GitHubCompare, String>,
) -> (result: RuntimeUpdateState)
    ensures
        result@ == compared_state(
            runtime@,
            preference,
            candidate@,
            match comparison {
                Ok(comparison) => Ok(comparison),
                Err(error) => Err(error@),
            },
        ),
{
    match comparison {
        Ok(comparison) => source_history_update_state(
            preference,
            candidate.runtime_id.as_str(),
            candidate.identity.version.as_str(),
            &comparison,
            source_recipe_ordering(
                &runtime.update_variant(true),
                &candidate.update_variant(true),
            ),
        ),
        Err(error) => RuntimeUpdateState::ProviderError(error),
    }
}

/// Whether a found runtime follows a released one in the channel that it follows.
pub open spec fn release_follows(
    runtime: RuntimeView,
    preference: RuntimeUpdatePreference,
    published: Option<AvailableView>,
    result: ResultView,
) -> bool {
    &&& result.entry.compatibility.usable()
    &&& on_line(runtime, result.entry.available)
    &&& in_channel(preference, published, result)
}

/// The newest release that is above the installed one.
pub open spec fn newer_release(
    runtime: RuntimeView,
    preference: RuntimeUpdatePreference,
    published: Option<AvailableView>,
    results: Seq<ResultView>,
) -> Option<int> {
    latest(
        results,
        |result: ResultView|
            release_follows(runtime, preference, published, result) && version_order(
                result.entry.available.identity.version,
                runtime.manifest.identity.version,
            ) == Order::Greater,
        |a: ResultView, b: ResultView|
            version_order(
                a.entry.available.identity.version,
                b.entry.available.identity.version,
            ),
    )
}

/// What is told of an installed release, given what is published of it.
pub open spec fn release_state(
    runtime: RuntimeView,
    preference: RuntimeUpdatePreference,
    published: Result<Option<AvailableView>, Seq<char>>,
    catalog: SearchView,
) -> UpdateView {
    match published {
        Ok(Some(published)) if !still_published(runtime, published) => UpdateView::ProviderError(
            provenance_conflict(runtime.manifest.runtime_id),
        ),
        Err(error) => UpdateView::ProviderError(error),
        Ok(published) => match error_of(
            catalog.provider_errors,
            runtime.manifest.identity.package.provider_id,
        ) {
            Some(error) => provider_state(error),
            None => if published is None {
                UpdateView::NoLongerPublished
            } else if preference != RuntimeUpdatePreference::Pinned && !exists|i: int|
                0 <= i < catalog.results.len() && release_follows(
                    runtime,
                    preference,
                    published,
                    #[trigger] catalog.results[i],
                ) {
                UpdateView::ChannelUnavailable { preference }
            } else {
                match newer_release(runtime, preference, published, catalog.results) {
                    Some(at) => offered(
                        preference,
                        catalog.results[at].entry.available.runtime_id,
                        catalog.results[at].entry.available.identity.version,
                    ),
                    None => settled(preference),
                }
            },
        },
    }
}

fn find_newer_release(
    runtime: &InstalledRuntime,
    preference: RuntimeUpdatePreference,
    published: &AvailableRuntime,
    results: &Vec<RuntimeSearchResult>,
) -> (found: (bool, Option<usize>))
    ensures
        found.0 == exists|i: int|
            0 <= i < results@.len() && release_follows(
                runtime@,
                preference,
                Some(published@),
                #[trigger] views(results@)[i],
            ),
        match (found.1, newer_release(runtime@, preference, Some(published@), views(results@))) {
            (Some(i), Some(at)) => i == at && i < results@.len(),
            (None, None) => true,
            _ => false,
        },
{
    let ghost all = views(results@);
    let ghost eligible = |result: ResultView|
        release_follows(runtime@, preference, Some(published@), result) && version_order(
            result.entry.available.identity.version,
            runtime@.manifest.identity.version,
        ) == Order::Greater;
    let ghost order = |a: ResultView, b: ResultView|
        version_order(a.entry.available.identity.version, b.entry.available.identity.version);
    let mut available = false;
    let mut best: Option<usize> = None;
    let mut i: usize = 0;
    while i < results.len()
        invariant
            i <= results.len(),
            all == views(results@),
            eligible == (|result: ResultView|
                release_follows(runtime@, preference, Some(published@), result) && version_order(
                    result.entry.available.identity.version,
                    runtime@.manifest.identity.version,
                ) == Order::Greater),
            order == (|a: ResultView, b: ResultView|
                version_order(
                    a.entry.available.identity.version,
                    b.entry.available.identity.version,
                )),
            available == exists|k: int|
                0 <= k < i && release_follows(
                    runtime@,
                    preference,
                    Some(published@),
                    #[trigger] all[k],
                ),
            match (best, latest(all.take(i as int), eligible, order)) {
                (Some(b), Some(at)) => b == at && b < i,
                (None, None) => true,
                _ => false,
            },
        decreases results.len() - i,
    {
        let result = &results[i];
        proof {
            assert(all[i as int] == result@);
            assert(all.take(i + 1).drop_last() =~= all.take(i as int));
            assert(all.take(i + 1).last() == result@);
        }
        if result.entry.compatibility.is_usable() && same_update_line(
            runtime,
            &result.entry.available,
        ) && update_channel_matches(preference, Some(published), &result.entry.available) {
            available = true;
            match compare_versions(
                result.entry.available.identity.version.as_str(),
                runtime.manifest.identity.version.as_str(),
            ) {
                Order::Greater => {
                    best = match best {
                        Some(at) => {
                            proof {
                                assert(all.take(i + 1)[at as int] == results@[at as int]@);
                            }
                            match compare_versions(
                                results[at].entry.available.identity.version.as_str(),
                                result.entry.available.identity.version.as_str(),
                            ) {
                                Order::Greater => Some(at),
                                _ => Some(i),
                            }
                        },
                        None => Some(i),
                    };
                },
                _ => {},
            }
        }
        i += 1;
    }
    proof {
        assert(all.take(all.len() as int) =~= all);
    }
    (available, best)
}

/// What is told of an installed release once its provider was asked, or its entry found.
pub fn release_update_state(
    runtime: &InstalledRuntime,
    preference: RuntimeUpdatePreference,
    published: Result<Option<&AvailableRuntime>, String>,
    catalog: &RuntimeSearchSnapshot,
) -> (result: RuntimeUpdateState)
    ensures
        result@ == release_state(
            runtime@,
            preference,
            match published {
                Ok(published) => Ok(referenced(published)),
                Err(error) => Err(error@),
            },
            catalog@,
        ),
{
    let published = match published {
        Ok(published) => published,
        Err(error) => {
            return RuntimeUpdateState::ProviderError(error);
        },
    };
    match published {
        Some(published) => match ensure_catalog_provenance_matches(runtime, published) {
            Err(error) => {
                return RuntimeUpdateState::ProviderError(error.message());
            },
            Ok(()) => {},
        },
        None => {},
    }
    match find_error(
        &catalog.provider_errors,
        runtime.manifest.identity.package.provider_id.as_str(),
    ) {
        Some(error) => {
            return tell_provider_error(error);
        },
        None => {},
    }
    let published = match published {
        Some(published) => published,
        None => {
            return RuntimeUpdateState::NoLongerPublished;
        },
    };
    let (available, newer) = find_newer_release(runtime, preference, published, &catalog.results);
    if !available && preference != RuntimeUpdatePreference::Pinned {
        return RuntimeUpdateState::ChannelUnavailable { preference };
    }
    match newer {
        Some(at) => {
            let found = &catalog.results[at].entry.available;
            proof {
                assert(catalog@.results[at as int] == catalog.results@[at as int]@);
            }
            match preference {
                RuntimeUpdatePreference::Pinned => RuntimeUpdateState::Pinned {
                    newer_runtime_id: Some(found.runtime_id.clone()),
                    newer_version: Some(found.identity.version.clone()),
                },
                _ => RuntimeUpdateState::NewerCompatibleVersion {
                    runtime_id: found.runtime_id.clone(),
                    version: found.identity.version.clone(),
                },
            }
        },
        None => match preference {
            RuntimeUpdatePreference::Pinned => RuntimeUpdateState::Pinned {
                newer_runtime_id: None,
                newer_version: None,
            },
            _ => RuntimeUpdateState::Current,
        },
    }
}

/// A runtime and what is known of its updates.
#[derive(Debug)]
pub struct RuntimeUpdateCheck {
    pub runtime: InstalledRuntime,
    pub state: RuntimeUpdateState,
}

#[verifier::ext_equal]
pub struct CheckView {
    pub runtime: RuntimeView,
    pub state: UpdateView,
}

impl View for RuntimeUpdateCheck {
    type V = CheckView;

    open spec fn view(&self) -> CheckView {
        CheckView { runtime: self.runtime@, state: self.state@ }
    }
}

/// How a state is written out.
pub open spec fn shown_state(state: UpdateView) -> Seq<char> {
    match state {
        UpdateView::Unmanaged => "Unmanaged"@,
        UpdateView::Current => "Current"@,
        UpdateView::NoLongerPublished => "NoLongerPublished"@,
        UpdateView::CatalogUnavailable(message) => "CatalogUnavailable("@ + quoted(message) + ")"@,
        UpdateView::ProviderError(message) => "ProviderError("@ + quoted(message) + ")"@,
        UpdateView::ChannelUnavailable { preference } => "ChannelUnavailable { preference: "@
            + preference.name() + " }"@,
        UpdateView::NewerCompatibleVersion { .. } => "NewerCompatibleVersion"@,
        UpdateView::Pinned { .. } => "Pinned"@,
    }
}

pub(crate) fn show_state(state: &RuntimeUpdateState) -> (result: String)
    ensures
        result@ == shown_state(state@),
{
    match state {
        RuntimeUpdateState::Unmanaged => "Unmanaged".to_owned(),
        RuntimeUpdateState::Current => "Current".to_owned(),
        RuntimeUpdateState::NoLongerPublished => "NoLongerPublished".to_owned(),
        RuntimeUpdateState::CatalogUnavailable(message) => cat3(
            "CatalogUnavailable(",
            quoted_text(message.as_str()).as_str(),
            ")",
        ),
        RuntimeUpdateState::ProviderError(message) => cat3(
            "ProviderError(",
            quoted_text(message.as_str()).as_str(),
            ")",
        ),
        RuntimeUpdateState::ChannelUnavailable { preference } => cat3(
            "ChannelUnavailable { preference: ",
            preference.shown(),
            " }",
        ),
        RuntimeUpdateState::NewerCompatibleVersion { .. } => "NewerCompatibleVersion".to_owned(),
        RuntimeUpdateState::Pinned { .. } => "Pinned".to_owned(),
    }
}

/// What updating a runtime comes to.
#[derive(Debug)]
pub enum UpdateAction {
    /// Install this runtime.
    Install(String),
    /// Nothing to do.
    Keep,
}

#[verifier::ext_equal]
pub enum ActionView {
    Install(Seq<char>),
    Keep,
}

impl View for UpdateAction {
    type V = ActionView;

    open spec fn view(&self) -> ActionView {
        match self {
            UpdateAction::Install(runtime_id) => ActionView::Install(runtime_id@),
            UpdateAction::Keep => ActionView::Keep,
        }
    }
}

/// What updating comes to in a state. A pinned runtime is updated only because it was asked for.
pub open spec fn state_action(state: UpdateView) -> Result<ActionView, PackErrorView> {
    match state {
        UpdateView::NewerCompatibleVersion { runtime_id, .. } => Ok(
            ActionView::Install(runtime_id),
        ),
        UpdateView::Pinned { newer_runtime_id: Some(newer), .. } => Ok(ActionView::Install(newer)),
        UpdateView::Pinned { newer_runtime_id: None, .. } => Ok(ActionView::Keep),
        UpdateView::Current => Ok(ActionView::Keep),
        state => Err(
            PackErrorView::Selection("runtime update is unavailable: "@ + shown_state(state)),
        ),
    }
}

/// The state of the first check of a runtime.
pub open spec fn checked_state(checks: Seq<CheckView>, runtime_id: Seq<char>) -> Option<UpdateView>
    decreases checks.len(),
{
    if checks.len() == 0 {
        None
    } else if checks[0].runtime.manifest.runtime_id == runtime_id {
        Some(checks[0].state)
    } else {
        checked_state(checks.skip(1), runtime_id)
    }
}

pub open spec fn update_result(checks: Seq<CheckView>, runtime_id: Seq<char>) -> Result<
    ActionView,
    PackErrorView,
> {
    match checked_state(checks, runtime_id) {
        Some(state) => state_action(state),
        None => Err(PackErrorView::NotInstalled(runtime_id)),
    }
}

pub fn update_action(checks: &Vec<RuntimeUpdateCheck>, runtime_id: &str) -> (result: Result<
    UpdateAction,
    RuntimePackError,
>)
    ensures
        match (result, update_result(views(checks@), runtime_id@)) {
            (Ok(action), Ok(expected)) => action@ == expected,
            (Err(error), Err(expected)) => error@ == expected,
            _ => false,
        },
{
    let ghost all = views(checks@);
    let mut i: usize = 0;
    proof {
        assert(all.skip(0) =~= all);
    }
    while i < checks.len()
        invariant
            i <= checks.len(),
            all == views(checks@),
            checked_state(all, runtime_id@) == checked_state(all.skip(i as int), runtime_id@),
        decreases checks.len() - i,
    {
        let check = &checks[i];
        proof {
            assert(all.skip(i as int)[0] == check@);
            assert(all.skip(i as int).skip(1) =~= all.skip(i + 1));
        }
        if same(check.runtime.manifest.runtime_id.as_str(), runtime_id) {
            return match &check.state {
                RuntimeUpdateState::NewerCompatibleVersion { runtime_id, .. } => Ok(
                    UpdateAction::Install(runtime_id.clone()),
                ),
                RuntimeUpdateState::Pinned { newer_runtime_id: Some(newer), .. } => Ok(
                    UpdateAction::Install(newer.clone()),
                ),
                RuntimeUpdateState::Pinned { newer_runtime_id: None, .. } => Ok(UpdateAction::Keep),
                RuntimeUpdateState::Current => Ok(UpdateAction::Keep),
                state => Err(
                    RuntimePackError::Selection(
                        cat2(
                            "runtime update is unavailable: ",
                            show_state(state).as_str(),
                        ),
                    ),
                ),
            };
        }
        i += 1;
    }
    Err(RuntimePackError::NotInstalled(runtime_id.to_owned()))
}

/// A pinned runtime is never offered an update by itself, whatever is published.
pub proof fn law_pinned_runtimes_stay(
    runtime: RuntimeView,
    published: Result<Option<AvailableView>, Seq<char>>,
    catalog: SearchView,
    candidate: AvailableView,
    comparison: Result<GitHubCompare, Seq<char>>,
)
    ensures
        !(release_state(runtime, RuntimeUpdatePreference::Pinned, published, catalog)
            is NewerCompatibleVersion),
        !(compared_state(runtime, RuntimeUpdatePreference::Pinned, candidate, comparison)
            is NewerCompatibleVersion),
        match first_step(runtime, RuntimeUpdatePreference::Pinned, catalog) {
            StepView::Decided(state) => !(state is NewerCompatibleVersion),
            _ => true,
        },
{
}

/// What a release is offered is on its line, fits this host, and is above it; a build from source is
/// compared only with one whose recipe is not older.
pub proof fn law_offers_are_upgrades(
    runtime: RuntimeView,
    preference: RuntimeUpdatePreference,
    published: Option<AvailableView>,
    results: Seq<ResultView>,
)
    ensures
        match newer_release(runtime, preference, published, results) {
            Some(at) => 0 <= at < results.len() && results[at].entry.compatibility.usable()
                && on_line(runtime, results[at].entry.available) && version_order(
                results[at].entry.available.identity.version,
                runtime.manifest.identity.version,
            ) == Order::Greater,
            None => true,
        },
        match source_candidate(runtime, preference, results) {
            Some(at) => 0 <= at < results.len() && results[at].entry.compatibility.usable()
                && on_line(runtime, results[at].entry.available) && recipe_order(
                runtime.variant(true),
                results[at].entry.available.variant(true),
            ) != Order::Less,
            None => true,
        },
{
    law_latest(
        results,
        |result: ResultView|
            release_follows(runtime, preference, published, result) && version_order(
                result.entry.available.identity.version,
                runtime.manifest.identity.version,
            ) == Order::Greater,
        |a: ResultView, b: ResultView|
            version_order(
                a.entry.available.identity.version,
                b.entry.available.identity.version,
            ),
    );
    law_latest(
        results,
        |result: ResultView|
            source_update(runtime, result) && (preference == RuntimeUpdatePreference::Pinned
                || in_channel(preference, None, result)),
        |a: ResultView, b: ResultView|
            source_candidate_order(
                runtime.manifest.identity,
                a.entry.available,
                b.entry.available,
            ),
    );
}

/// Nothing eligible is above what is found as the latest, by any coarser order that ranks what is
/// eligible.
pub proof fn law_latest_by_key<T>(
    list: Seq<T>,
    eligible: spec_fn(T) -> bool,
    order: spec_fn(T, T) -> Order,
    above: spec_fn(T, T) -> bool,
)
    requires
        forall|a: T, b: T|
            list.contains(a) && list.contains(b) && eligible(a) && eligible(b) && #[trigger] above(
                a,
                b,
            ) ==> order(a, b) == Order::Greater,
        forall|a: T, b: T|
            list.contains(a) && list.contains(b) && eligible(a) && eligible(b) && #[trigger] order(
                a,
                b,
            ) == Order::Greater ==> !above(b, a),
        forall|a: T, b: T, c: T|
            list.contains(a) && list.contains(b) && list.contains(c) && eligible(a) && eligible(b)
                && eligible(c) && !#[trigger] above(a, b) && !#[trigger] above(b, c) ==> !above(
                a,
                c,
            ),
    ensures
        match latest(list, eligible, order) {
            Some(at) => 0 <= at < list.len() && eligible(list[at]) && forall|i: int|
                0 <= i < list.len() && eligible(#[trigger] list[i]) ==> !above(list[i], list[at]),
            None => forall|i: int| 0 <= i < list.len() ==> !eligible(#[trigger] list[i]),
        },
    decreases list.len(),
{
    law_latest(list, eligible, order);
    if list.len() > 0 {
        let rest = list.drop_last();
        let last = list.last();
        assert forall|a: T| rest.contains(a) implies #[trigger] list.contains(a) by {
            assert(list[rest.index_of(a)] == a);
        }
        assert(forall|i: int| 0 <= i < list.len() ==> list.contains(#[trigger] list[i]));
        law_latest_by_key(rest, eligible, order, above);
        assert(forall|i: int| 0 <= i < rest.len() ==> rest[i] == list[i]);
        let before = latest(rest, eligible, order);
        match latest(list, eligible, order) {
            Some(at) => {
                assert forall|i: int|
                    0 <= i < list.len() && eligible(#[trigger] list[i]) implies !above(
                    list[i],
                    list[at],
                ) by {
                    if i < rest.len() {
                        assert(eligible(rest[i]));
                        let best = rest[before->0];
                        assert(!above(rest[i], best));
                        if at == list.len() - 1 && eligible(last) {
                            assert(order(best, last) != Order::Greater);
                            assert(!above(best, last));
                        }
                    } else if at == list.len() - 1 {
                        if above(last, last) {
                            assert(order(last, last) == Order::Greater);
                        }
                    } else {
                        assert(order(list[at], last) == Order::Greater);
                    }
                }
            },
            None => {},
        }
    }
}

/// Whether a found runtime could follow an installed one: it fits this host, it is for the same engine,
/// platform, architecture, accelerator and function, comes from the same provider, and is published in
/// a channel.
pub open spec fn could_follow(
    runtime: RuntimeView,
    channel: RuntimeReleaseChannel,
    result: ResultView,
) -> bool {
    let (old, new) = (runtime.manifest.identity, result.entry.available.identity);
    &&& !(result.entry.compatibility is Incompatible)
    &&& new.engine_id == old.engine_id
    &&& new.package_family == old.package_family || q27_member(old) && q27_member(new)
    &&& new.platform == old.platform
    &&& new.architecture == old.architecture
    &&& new.accelerator == old.accelerator
    &&& new.package.provider_id == old.package.provider_id
    &&& result.entry.available.variant(true).functional_variant == runtime.variant(
        true,
    ).functional_variant
    &&& result.entry.available.channels.contains(channel)
}

/// Whether a found runtime could follow an installed one, and none that could has a higher version.
pub open spec fn none_follows_higher(
    runtime: RuntimeView,
    channel: RuntimeReleaseChannel,
    results: Seq<ResultView>,
    at: int,
) -> bool {
    &&& could_follow(runtime, channel, results[at])
    &&& forall|i: int|
        0 <= i < results.len() && could_follow(runtime, channel, #[trigger] results[i])
            ==> version_order(
            results[i].entry.available.identity.version,
            results[at].entry.available.identity.version,
        ) != Order::Greater
}

/// The channel in which the updates of an installed release are looked for.
pub open spec fn watched_channel(
    preference: RuntimeUpdatePreference,
    published: AvailableView,
    channel: RuntimeReleaseChannel,
) -> bool {
    &&& preference == RuntimeUpdatePreference::Stable ==> channel == RuntimeReleaseChannel::Stable
    &&& preference == RuntimeUpdatePreference::Latest ==> channel == RuntimeReleaseChannel::Latest
    &&& preference == RuntimeUpdatePreference::Pinned && (!published.prerelease
        || published.channels.contains(RuntimeReleaseChannel::Stable)) ==> channel
        == RuntimeReleaseChannel::Stable
    &&& preference == RuntimeUpdatePreference::Pinned && published.prerelease
        && !published.channels.contains(RuntimeReleaseChannel::Stable) ==> channel
        == RuntimeReleaseChannel::Latest
}

/// The release that is offered, or told of where the runtime is pinned, is the highest there is: it
/// could follow the installed one in the channel that is watched, it is above it, and none that could
/// is higher. Nothing is offered only where nothing that could follow is above the installed one.
pub proof fn law_offered_release_is_the_highest(
    runtime: RuntimeView,
    preference: RuntimeUpdatePreference,
    published: AvailableView,
    catalog: SearchView,
    channel: RuntimeReleaseChannel,
)
    requires
        watched_channel(preference, published, channel),
    ensures
        match release_state(runtime, preference, Ok(Some(published)), catalog) {
            UpdateView::NewerCompatibleVersion { runtime_id, version } => {
                &&& preference != RuntimeUpdatePreference::Pinned
                &&& version_order(version, runtime.manifest.identity.version) == Order::Greater
                &&& exists|at: int|
                    0 <= at < catalog.results.len()
                        && catalog.results[at].entry.available.runtime_id == runtime_id
                        && catalog.results[at].entry.available.identity.version == version
                        && #[trigger] none_follows_higher(runtime, channel, catalog.results, at)
            },
            UpdateView::Pinned { newer_runtime_id: Some(id), newer_version: Some(version) } => {
                &&& preference == RuntimeUpdatePreference::Pinned
                &&& version_order(version, runtime.manifest.identity.version) == Order::Greater
                &&& exists|at: int|
                    0 <= at < catalog.results.len()
                        && catalog.results[at].entry.available.runtime_id == id
                        && catalog.results[at].entry.available.identity.version == version
                        && #[trigger] none_follows_higher(runtime, channel, catalog.results, at)
            },
            UpdateView::Pinned { newer_runtime_id: None, newer_version: None } => {
                &&& preference == RuntimeUpdatePreference::Pinned
                &&& forall|i: int|
                    0 <= i < catalog.results.len() && could_follow(
                        runtime,
                        channel,
                        #[trigger] catalog.results[i],
                    ) ==> version_order(
                        catalog.results[i].entry.available.identity.version,
                        runtime.manifest.identity.version,
                    ) != Order::Greater
            },
            UpdateView::Current => {
                &&& preference != RuntimeUpdatePreference::Pinned
                &&& forall|i: int|
                    0 <= i < catalog.results.len() && could_follow(
                        runtime,
                        channel,
                        #[trigger] catalog.results[i],
                    ) ==> version_order(
                        catalog.results[i].entry.available.identity.version,
                        runtime.manifest.identity.version,
                    ) != Order::Greater
            },
            UpdateView::ChannelUnavailable { preference: told } => {
                &&& told == preference
                &&& preference != RuntimeUpdatePreference::Pinned
                &&& forall|i: int|
                    0 <= i < catalog.results.len() ==> !could_follow(
                        runtime,
                        channel,
                        #[trigger] catalog.results[i],
                    )
            },
            UpdateView::Pinned { .. } => false,
            UpdateView::Unmanaged => false,
            UpdateView::NoLongerPublished => false,
            _ => !still_published(runtime, published) || exists|i: int|
                0 <= i < catalog.provider_errors.len() && (
                #[trigger] catalog.provider_errors[i]).provider_id
                    == runtime.manifest.identity.package.provider_id,
        },
{
    let results = catalog.results;
    let installed = runtime.manifest.identity.version;
    let eligible = |result: ResultView|
        release_follows(runtime, preference, Some(published), result) && version_order(
            result.entry.available.identity.version,
            installed,
        ) == Order::Greater;
    let order = |x: ResultView, y: ResultView|
        version_order(x.entry.available.identity.version, y.entry.available.identity.version);
    let above = |a: ResultView, b: ResultView| order(a, b) == Order::Greater;
    assert(followed_channel(preference, Some(published)) == channel);
    assert forall|result: ResultView| #[trigger] release_follows(
        runtime,
        preference,
        Some(published),
        result,
    ) == could_follow(runtime, channel, result) by {}
    assert forall|a: ResultView, b: ResultView| #[trigger]
        order(a, b) == Order::Greater implies !above(b, a) by {
        law_versions_are_ordered(
            a.entry.available.identity.version,
            b.entry.available.identity.version,
            b.entry.available.identity.version,
        );
    }
    assert forall|a: ResultView, b: ResultView, c: ResultView|
        !#[trigger] above(a, b) && !#[trigger] above(b, c) implies !above(a, c) by {
        law_versions_are_ordered(
            a.entry.available.identity.version,
            b.entry.available.identity.version,
            c.entry.available.identity.version,
        );
    }
    law_latest_by_key(results, eligible, order, above);
    match latest(results, eligible, order) {
        Some(at) => {
            let version = results[at].entry.available.identity.version;
            assert forall|i: int|
                0 <= i < results.len() && could_follow(
                    runtime,
                    channel,
                    #[trigger] results[i],
                ) implies version_order(results[i].entry.available.identity.version, version)
                != Order::Greater by {
                let other = results[i].entry.available.identity.version;
                assert(release_follows(runtime, preference, Some(published), results[i]));
                if version_order(other, installed) == Order::Greater {
                    assert(eligible(results[i]));
                    assert(!above(results[i], results[at]));
                } else {
                    law_versions_are_ordered(other, installed, version);
                    law_versions_are_ordered(installed, version, version);
                }
            }
            assert(eligible(results[at]));
            assert(none_follows_higher(runtime, channel, results, at));
        },
        None => {
            assert forall|i: int|
                0 <= i < results.len() && could_follow(
                    runtime,
                    channel,
                    #[trigger] results[i],
                ) implies version_order(
                results[i].entry.available.identity.version,
                installed,
            ) != Order::Greater by {
                assert(!eligible(results[i]));
                assert(release_follows(runtime, preference, Some(published), results[i]));
            }
        },
    }
    lemma_error_of(catalog.provider_errors, runtime.manifest.identity.package.provider_id);
}

proof fn lemma_error_of(errors: Seq<ProviderErrorView>, provider_id: Seq<char>)
    ensures
        match error_of(errors, provider_id) {
            Some(error) => error.provider_id == provider_id && exists|i: int|
                0 <= i < errors.len() && #[trigger] errors[i] == error,
            None => forall|i: int|
                0 <= i < errors.len() ==> (#[trigger] errors[i]).provider_id != provider_id,
        },
    decreases errors.len(),
{
    if errors.len() > 0 && errors[0].provider_id != provider_id {
        let rest = errors.skip(1);
        lemma_error_of(rest, provider_id);
        if error_of(rest, provider_id) is Some {
            let i = choose|i: int|
                0 <= i < rest.len() && #[trigger] rest[i] == error_of(rest, provider_id)->0;
            assert(errors[i + 1] == rest[i]);
        } else {
            assert forall|i: int| 0 <= i < errors.len() implies (
            #[trigger] errors[i]).provider_id != provider_id by {
                if i > 0 {
                    assert(rest[i - 1] == errors[i]);
                }
            }
        }
    }
}

/// Whether a found runtime could follow an installed one that was built from source: its recipe is not
/// known to be older, and it is in a channel or the runtime is pinned.
pub open spec fn could_follow_source(
    runtime: RuntimeView,
    preference: RuntimeUpdatePreference,
    result: ResultView,
) -> bool {
    let (old, new) = (runtime.variant(true), result.entry.available.variant(true));
    let channel = if preference == RuntimeUpdatePreference::Stable {
        RuntimeReleaseChannel::Stable
    } else {
        RuntimeReleaseChannel::Latest
    };
    &&& !(result.entry.compatibility is Incompatible)
    &&& on_line(runtime, result.entry.available)
    &&& !(old.source_recipe_generation is Some && new.source_recipe_generation is Some
        && new.source_recipe_generation->0 < old.source_recipe_generation->0)
    &&& preference == RuntimeUpdatePreference::Pinned
        || result.entry.available.channels.contains(channel)
}

/// Whether of two found runtimes the first is the better update for a build from source: by the later
/// recipe, then by the later publication.
pub open spec fn is_later_build(a: ResultView, b: ResultView) -> bool {
    let (x, y) = (
        a.entry.available.variant(true).source_recipe_generation,
        b.entry.available.variant(true).source_recipe_generation,
    );
    x->0 > y->0 || x == y && time_order(
        a.entry.available.published_at_unix,
        b.entry.available.published_at_unix,
    ) == Order::Greater
}

/// Whether the recipes of all that could follow a build from source are known, or of none.
pub open spec fn recipes_compare(
    runtime: RuntimeView,
    preference: RuntimeUpdatePreference,
    results: Seq<ResultView>,
) -> bool {
    forall|i: int, j: int|
        0 <= i < results.len() && 0 <= j < results.len() && could_follow_source(
            runtime,
            preference,
            #[trigger] results[i],
        ) && could_follow_source(runtime, preference, #[trigger] results[j])
            ==> results[i].entry.available.variant(true).source_recipe_generation is Some
            == results[j].entry.available.variant(true).source_recipe_generation is Some
}

/// The update of a build from source is looked for among what could follow it, and nothing is found
/// only where nothing could. Where the recipes of all that could are known, or of none, and the runtime
/// is no tagged release of q27, none that could is by a later recipe, or by the same one and published
/// later; for a tagged release of q27 among such releases, none that could has a higher version.
pub proof fn law_source_update_is_the_latest(
    runtime: RuntimeView,
    preference: RuntimeUpdatePreference,
    results: Seq<ResultView>,
)
    ensures
        match source_candidate(runtime, preference, results) {
            Some(at) => 0 <= at < results.len() && could_follow_source(
                runtime,
                preference,
                results[at],
            ),
            None => forall|i: int|
                0 <= i < results.len() ==> !could_follow_source(
                    runtime,
                    preference,
                    #[trigger] results[i],
                ),
        },
        source_candidate(runtime, preference, results) is Some && !q27_release(
            runtime.manifest.identity,
        ) && recipes_compare(runtime, preference, results) ==> forall|i: int|
            0 <= i < results.len() && could_follow_source(
                runtime,
                preference,
                #[trigger] results[i],
            ) ==> !is_later_build(
                results[i],
                results[source_candidate(runtime, preference, results)->0],
            ),
        source_candidate(runtime, preference, results) is Some && q27_release(
            runtime.manifest.identity,
        ) && (forall|i: int|
            0 <= i < results.len() && could_follow_source(
                runtime,
                preference,
                #[trigger] results[i],
            ) ==> q27_release(results[i].entry.available.identity)) ==> forall|i: int|
            0 <= i < results.len() && could_follow_source(
                runtime,
                preference,
                #[trigger] results[i],
            ) ==> version_order(
                results[i].entry.available.identity.version,
                results[source_candidate(runtime, preference, results)->0].entry.available.identity.version,
            ) != Order::Greater,
{
    let eligible = |result: ResultView|
        source_update(runtime, result) && (preference == RuntimeUpdatePreference::Pinned
            || in_channel(preference, None, result));
    let order = |a: ResultView, b: ResultView|
        source_candidate_order(
            runtime.manifest.identity,
            a.entry.available,
            b.entry.available,
        );
    law_latest(results, eligible, order);
    assert forall|i: int| 0 <= i < results.len() implies eligible(#[trigger] results[i])
        == could_follow_source(runtime, preference, results[i]) by {}
    let above = |a: ResultView, b: ResultView| is_later_build(a, b);
    if !q27_release(runtime.manifest.identity) && recipes_compare(runtime, preference, results) {
        assert forall|a: ResultView, b: ResultView|
            results.contains(a) && results.contains(b) && eligible(a) && eligible(b) implies (
        a.entry.available.variant(true).source_recipe_generation is Some
            == b.entry.available.variant(true).source_recipe_generation is Some)
            && #[trigger] order(a, b) == source_order(a, b) by {
            let (i, j) = (results.index_of(a), results.index_of(b));
            assert(could_follow_source(runtime, preference, results[i]));
            assert(could_follow_source(runtime, preference, results[j]));
        }
        assert forall|a: ResultView, b: ResultView, c: ResultView|
            results.contains(a) && results.contains(b) && results.contains(c) && eligible(a)
                && eligible(b) && eligible(c) && !#[trigger] above(a, b) && !#[trigger] above(
                b,
                c,
            ) implies !above(a, c) by {
            assert(order(a, b) == source_order(a, b));
            assert(order(b, c) == source_order(b, c));
        }
        assert forall|a: ResultView, b: ResultView|
            results.contains(a) && results.contains(b) && eligible(a) && eligible(b)
                && #[trigger] above(a, b) implies order(a, b) == Order::Greater by {
            assert(order(a, b) == source_order(a, b));
        }
        law_latest_by_key(results, eligible, order, above);
    }
    let higher = |a: ResultView, b: ResultView|
        version_order(a.entry.available.identity.version, b.entry.available.identity.version)
            == Order::Greater;
    if q27_release(runtime.manifest.identity) && (forall|i: int|
        0 <= i < results.len() && could_follow_source(
            runtime,
            preference,
            #[trigger] results[i],
        ) ==> q27_release(results[i].entry.available.identity)) {
        assert forall|a: ResultView| #[trigger] results.contains(a) && eligible(a) implies q27_release(
            a.entry.available.identity,
        ) by {
            assert(could_follow_source(runtime, preference, results[results.index_of(a)]));
        }
        assert forall|a: ResultView, b: ResultView|
            results.contains(a) && results.contains(b) && eligible(a) && eligible(b)
                && #[trigger] order(a, b) == Order::Greater implies !higher(b, a) by {
            law_versions_are_ordered(
                a.entry.available.identity.version,
                b.entry.available.identity.version,
                b.entry.available.identity.version,
            );
        }
        assert forall|a: ResultView, b: ResultView, c: ResultView|
            !#[trigger] higher(a, b) && !#[trigger] higher(b, c) implies !higher(a, c) by {
            law_versions_are_ordered(
                a.entry.available.identity.version,
                b.entry.available.identity.version,
                c.entry.available.identity.version,
            );
        }
        law_latest_by_key(results, eligible, order, higher);
        let at = source_candidate(runtime, preference, results)->0;
        assert forall|i: int|
            0 <= i < results.len() && could_follow_source(
                runtime,
                preference,
                #[trigger] results[i],
            ) implies version_order(
            results[i].entry.available.identity.version,
            results[at].entry.available.identity.version,
        ) != Order::Greater by {
            assert(eligible(results[i]));
            assert(!higher(results[i], results[at]));
        }
    }
}

/// How two builds compare: by their recipes, then by when they were published.
spec fn source_order(a: ResultView, b: ResultView) -> Order {
    crate::updates::generation_order(
        a.entry.available.variant(true).source_recipe_generation,
        b.entry.available.variant(true).source_recipe_generation,
    ).or(time_order(a.entry.available.published_at_unix, b.entry.available.published_at_unix))
}

/// A runtime fits as its catalog and its engine say together: it does not where the engine is not known or
/// does not take it, and otherwise the worse judgement counts, that on the tools to build it with it.
pub proof fn law_engines_decide_what_fits(
    candidate: CandidateView,
    evaluated: Map<Seq<char>, CompatibilityView>,
    reason: Seq<char>,
)
    ensures
        ({
            let fit = candidate.assessed(evaluated);
            let answers = candidate.answers;
            let listed = candidate.entry.compatibility;
            &&& answers is None ==> fit == CompatibilityView::Incompatible(
                "engine adapter is not registered"@,
            )
            &&& answers is Some && answers->0.management == Some(reason) ==> fit
                == CompatibilityView::Incompatible(reason)
            &&& answers is Some && answers->0.management is None && answers->0.runtime == Some(
                reason,
            ) ==> fit == CompatibilityView::Incompatible(reason)
            &&& listed is Incompatible ==> fit is Incompatible
            &&& candidate.model is Some && candidate.model->0.compatibility is Incompatible
                ==> fit is Incompatible
            &&& fit is Recommended ==> listed is Recommended && (candidate.model is Some
                ==> candidate.model->0.compatibility is Recommended)
            &&& fit is Recommended && candidate.prerequisite_key is Some && evaluated.contains_key(
                candidate.prerequisite_key->0,
            ) ==> evaluated[candidate.prerequisite_key->0] is Recommended
            &&& candidate.prerequisite_key is Some && evaluated.contains_key(
                candidate.prerequisite_key->0,
            ) && evaluated[candidate.prerequisite_key->0] is Incompatible ==> fit is Incompatible
            &&& fit is Incompatible ==> answers is None || answers->0.management is Some
                || answers->0.runtime is Some || listed is Incompatible || candidate.model is Some
                && candidate.model->0.compatibility is Incompatible
                || candidate.prerequisite_key is Some && evaluated.contains_key(
                candidate.prerequisite_key->0,
            ) && evaluated[candidate.prerequisite_key->0] is Incompatible
        }),
{
}

/// The tools that are looked for are those of the candidates that fit without them, each once.
pub proof fn law_tools_are_looked_for_once(candidates: Seq<CandidateView>, key: Seq<char>)
    ensures
        wanted_keys(candidates).no_duplicates(),
        wanted_keys(candidates).contains(key) <==> exists|i: int|
            0 <= i < candidates.len() && (#[trigger] candidates[i]).prerequisite_key == Some(key)
                && !(candidates[i].judged() is Incompatible),
    decreases candidates.len(),
{
    let all = wanted_keys(candidates);
    if candidates.len() > 0 {
        let rest = candidates.drop_last();
        let some = wanted_keys(rest);
        law_tools_are_looked_for_once(rest, key);
        assert(candidates[candidates.len() - 1] == candidates.last());
        if some.contains(key) {
            let i = choose|i: int|
                0 <= i < rest.len() && (#[trigger] rest[i]).prerequisite_key == Some(key) && !(
                rest[i].judged() is Incompatible);
            assert(candidates[i] == rest[i]);
            assert(all[some.index_of(key)] == key);
        }
        if candidates.last().wanted_key() is Some && !some.contains(
            candidates.last().wanted_key()->0,
        ) {
            let last = candidates.last().wanted_key()->0;
            assert(all == some.push(last));
            assert(all[all.len() - 1] == last);
            if all.contains(key) && key != last {
                assert(some[all.index_of(key)] == key);
            }
            assert forall|i: int, j: int|
                0 <= i < all.len() && 0 <= j < all.len() && i != j implies all[i] != all[j] by {
                if i == some.len() {
                    assert(some[j] == all[j]);
                } else if j == some.len() {
                    assert(some[i] == all[i]);
                }
            }
        }
        if exists|i: int|
            0 <= i < candidates.len() && (#[trigger] candidates[i]).prerequisite_key == Some(key)
                && !(candidates[i].judged() is Incompatible) {
            let i = choose|i: int|
                0 <= i < candidates.len() && (#[trigger] candidates[i]).prerequisite_key == Some(
                    key,
                ) && !(candidates[i].judged() is Incompatible);
            if i < rest.len() {
                assert(rest[i] == candidates[i]);
            }
        }
    } else {
        assert(!all.contains(key));
    }
}

/// Whether a judgement is better than another.
pub open spec fn fits_better(a: CompatibilityView, b: CompatibilityView) -> bool {
    match a {
        CompatibilityView::Recommended => !(b is Recommended),
        CompatibilityView::Compatible => b is NeedsAttention || b is Incompatible,
        CompatibilityView::NeedsAttention(_) => b is Incompatible,
        CompatibilityView::Incompatible(_) => false,
    }
}

/// Of two found runtimes the one that fits better comes first; where neither does, the one that the
/// engine prefers; then by the names of engine and variant; and of one variant the newer, with those last
/// of which the time is not known.
pub proof fn law_better_fits_are_shown_first(a: RankedView, b: RankedView)
    ensures
        ({
            let (x, y) = (a.entry.available, b.entry.available);
            let alike = !fits_better(a.entry.compatibility, b.entry.compatibility) && !fits_better(
                b.entry.compatibility,
                a.entry.compatibility,
            );
            let preferred = alike && a.preference == b.preference;
            let one_engine = preferred && x.identity.engine_id == y.identity.engine_id;
            let one_variant = one_engine && x.identity.variant == y.identity.variant;
            &&& fits_better(a.entry.compatibility, b.entry.compatibility) ==> found_order(a, b)
                == Order::Less
            &&& alike && a.preference < b.preference ==> found_order(a, b) == Order::Less
            &&& preferred && text_order(x.identity.engine_id, y.identity.engine_id) == Order::Less
                ==> found_order(a, b) == Order::Less
            &&& one_engine && text_order(x.identity.variant, y.identity.variant) == Order::Less
                ==> found_order(a, b) == Order::Less
            &&& one_variant && x.published_at_unix is Some && (y.published_at_unix is None
                || x.published_at_unix->0 > y.published_at_unix->0) ==> found_order(a, b)
                == Order::Less
            &&& one_variant && x.published_at_unix == y.published_at_unix ==> found_order(a, b)
                == Order::Equal
        }),
{
    let (x, y) = (a.entry.available.identity, b.entry.available.identity);
    crate::order::lemma_text_order_equal(x.engine_id, y.engine_id);
    crate::order::lemma_text_order_equal(x.variant, y.variant);
}

/// How two things compare by one of their parts.
spec fn chains(ab: Order, bc: Order, ac: Order) -> bool {
    &&& ab != Order::Less && bc != Order::Less ==> ac != Order::Less
    &&& ab != Order::Less && bc != Order::Less && ac == Order::Equal ==> ab == Order::Equal && bc
        == Order::Equal
    &&& ab == Order::Equal && bc == Order::Equal ==> ac == Order::Equal
}

proof fn lemma_texts_chain(a: Seq<char>, b: Seq<char>, c: Seq<char>)
    ensures
        chains(text_order(a, b), text_order(b, c), text_order(a, c)),
{
    crate::order::lemma_text_order_flips(a, b);
    crate::order::lemma_text_order_flips(b, c);
    crate::order::lemma_text_order_flips(a, c);
    crate::order::lemma_text_order_equal(a, b);
    crate::order::lemma_text_order_equal(b, c);
    crate::order::lemma_text_order_equal(a, c);
    if text_order(a, b) != Order::Less && text_order(b, c) != Order::Less {
        crate::order::lemma_text_order_chains(c, b, a);
    }
}

proof fn lemma_found_order(a: RankedView, b: RankedView, c: RankedView)
    ensures
        found_order(b, a) == found_order(a, b).flipped(),
        found_order(a, b) != Order::Less && found_order(b, c) != Order::Less ==> found_order(a, c)
            != Order::Less,
{
    let (x, y, z) = (a.entry.available, b.entry.available, c.entry.available);
    crate::order::lemma_text_order_flips(x.identity.engine_id, y.identity.engine_id);
    crate::order::lemma_text_order_flips(x.identity.variant, y.identity.variant);
    lemma_texts_chain(x.identity.engine_id, y.identity.engine_id, z.identity.engine_id);
    lemma_texts_chain(x.identity.variant, y.identity.variant, z.identity.variant);
}

/// A search shows each candidate once, as it fits, and says of each whether it is installed and what it is
/// chosen for. For a model, none that fits better is shown after another; otherwise the order of the
/// catalog is kept.
pub proof fn law_searches_show_each_candidate(
    candidates: Seq<CandidateView>,
    evaluated: Map<Seq<char>, CompatibilityView>,
    for_model: bool,
    installed: Seq<Seq<char>>,
    selections: SelectionsView,
)
    ensures
        ({
            let results = found(candidates, evaluated, for_model, installed, selections);
            &&& results.len() == candidates.len()
            &&& forall|i: int|
                0 <= i < results.len() ==> (#[trigger] results[i]).installed == installed.contains(
                    results[i].entry.available.runtime_id,
                ) && results[i].selected_for == selections.uses(
                    results[i].entry.available.runtime_id,
                )
            &&& forall|i: int|
                0 <= i < candidates.len() ==> exists|k: int|
                    0 <= k < results.len() && (#[trigger] results[k]).entry.available == (
                    #[trigger] candidates[i]).entry.available && results[k].entry.compatibility
                        == candidates[i].assessed(evaluated)
            &&& for_model ==> forall|i: int, j: int|
                0 <= i < j < results.len() ==> !fits_better(
                    (#[trigger] results[j]).entry.compatibility,
                    (#[trigger] results[i]).entry.compatibility,
                )
            &&& !for_model ==> forall|i: int|
                0 <= i < results.len() ==> (#[trigger] results[i]).entry.available
                    == candidates[i].entry.available && results[i].entry.compatibility
                    == candidates[i].assessed(evaluated)
        }),
{
    let results = found(candidates, evaluated, for_model, installed, selections);
    let entries = ranked_entries(candidates, evaluated);
    let before = |a: RankedView, b: RankedView| found_order(a, b) == Order::Less;
    let shown = if for_model {
        sorted(entries, before)
    } else {
        entries
    };
    assert forall|a: RankedView, b: RankedView| #[trigger] before(a, b) implies !before(b, a) by {
        lemma_found_order(a, b, b);
    }
    assert forall|a: RankedView, b: RankedView, c: RankedView|
        !#[trigger] before(a, b) && !#[trigger] before(b, c) implies !before(a, c) by {
        lemma_found_order(a, b, c);
    }
    crate::sorting::law_sorted(entries, before);
    assert(shown.len() == candidates.len());
    assert forall|i: int| 0 <= i < results.len() implies (#[trigger] results[i]).entry
        == shown[i].entry by {}
    assert forall|i: int| 0 <= i < candidates.len() implies exists|k: int|
        0 <= k < results.len() && (#[trigger] results[k]).entry.available == (
        #[trigger] candidates[i]).entry.available && results[k].entry.compatibility
            == candidates[i].assessed(evaluated) by {
        shown.to_multiset_ensures();
        entries.to_multiset_ensures();
        assert(entries.to_multiset().count(entries[i]) > 0);
        assert(shown.contains(entries[i]));
        let k = shown.index_of(entries[i]);
        assert(results[k].entry == entries[i].entry);
    }
    if for_model {
        assert forall|i: int, j: int| 0 <= i < j < results.len() implies !fits_better(
            (#[trigger] results[j]).entry.compatibility,
            (#[trigger] results[i]).entry.compatibility,
        ) by {
            assert(!before(shown[j], shown[i]));
            law_better_fits_are_shown_first(shown[j], shown[i]);
        }
    }
}

/// The place of a runtime in a catalog is the first at which it stands.
pub proof fn law_runtimes_are_found_by_name(results: Seq<ResultView>, runtime_id: Seq<char>)
    ensures
        match place_of(results, runtime_id) {
            Some(at) => 0 <= at < results.len() && results[at].entry.available.runtime_id
                == runtime_id && forall|i: int|
                0 <= i < at ==> (#[trigger] results[i]).entry.available.runtime_id != runtime_id,
            None => forall|i: int|
                0 <= i < results.len() ==> (#[trigger] results[i]).entry.available.runtime_id
                    != runtime_id,
        },
    decreases results.len(),
{
    if results.len() > 0 {
        let rest = results.drop_last();
        law_runtimes_are_found_by_name(rest, runtime_id);
        assert(forall|i: int| 0 <= i < rest.len() ==> rest[i] == results[i]);
        assert forall|i: int|
            0 <= i < rest.len() && rest[i].entry.available.runtime_id != runtime_id implies (
        #[trigger] results[i]).entry.available.runtime_id != runtime_id by {
            assert(rest[i] == results[i]);
        }
    }
}

/// What a check for updates does first: a binary of someone else's is left alone, a build from source is
/// looked at with its sources, and a release is looked up where it is not in the catalog and its provider
/// could be asked.
pub proof fn law_checks_begin_by_origin(
    runtime: RuntimeView,
    preference: RuntimeUpdatePreference,
    catalog: SearchView,
)
    ensures
        ({
            let step = first_step(runtime, preference, catalog);
            let method = runtime.manifest.acquisition_method;
            let listed = exists|i: int|
                0 <= i < catalog.results.len() && (
                #[trigger] catalog.results[i]).entry.available.runtime_id
                    == runtime.manifest.runtime_id;
            let failed = exists|i: int|
                0 <= i < catalog.provider_errors.len() && (
                #[trigger] catalog.provider_errors[i]).provider_id
                    == runtime.manifest.identity.package.provider_id;
            &&& method == RuntimeAcquisitionMethod::ExternalBinary ==> step == StepView::Decided(
                UpdateView::Unmanaged,
            )
            &&& method != RuntimeAcquisitionMethod::ExternalBinary && method
                != RuntimeAcquisitionMethod::SourceBuild ==> {
                &&& step is Compare <==> listed
                &&& step is LookUp <==> !listed && !failed
                &&& !listed && failed ==> step is Decided && (step->Decided_0 is ProviderError
                    || step->Decided_0 is CatalogUnavailable)
            }
            &&& method == RuntimeAcquisitionMethod::SourceBuild && failed ==> step is Decided && (
            step->Decided_0 is ProviderError || step->Decided_0 is CatalogUnavailable)
        }),
{
    law_runtimes_are_found_by_name(catalog.results, runtime.manifest.runtime_id);
    lemma_error_of(catalog.provider_errors, runtime.manifest.identity.package.provider_id);
}

/// Where a provider could not be asked, a catalog of an earlier time tells of the error, and none at all of
/// the missing catalog.
pub proof fn law_stale_catalogs_tell_of_the_error(error: ProviderErrorView)
    ensures
        error.using_stale_cache ==> provider_state(error) == UpdateView::ProviderError(
            error.message,
        ),
        !error.using_stale_cache ==> provider_state(error) == UpdateView::CatalogUnavailable(
            error.message,
        ),
{
}

/// An update installs what was offered, also to a pinned runtime; there is nothing to do where a runtime is
/// current or pinned with nothing newer; and in any other state the update is refused.
pub proof fn law_updates_install_what_was_offered(state: UpdateView, newer: Seq<char>)
    ensures
        state_action(state) == Ok::<ActionView, PackErrorView>(ActionView::Install(newer)) <==> (
        state matches UpdateView::NewerCompatibleVersion { runtime_id, .. } && runtime_id == newer)
            || (state matches UpdateView::Pinned { newer_runtime_id, .. } && newer_runtime_id
            == Some(newer)),
        state_action(state) == Ok::<ActionView, PackErrorView>(ActionView::Keep) <==> state
            is Current || (state matches UpdateView::Pinned { newer_runtime_id, .. }
            && newer_runtime_id is None),
        state_action(state) is Err <==> state is Unmanaged || state is NoLongerPublished || state
            is CatalogUnavailable || state is ProviderError || state is ChannelUnavailable,
{
}

/// What an update does goes by the first check of its runtime; without one the runtime is not installed.
pub proof fn law_updates_go_by_their_check(checks: Seq<CheckView>, runtime_id: Seq<char>)
    ensures
        (forall|i: int|
            0 <= i < checks.len() ==> (#[trigger] checks[i]).runtime.manifest.runtime_id
                != runtime_id) ==> update_result(checks, runtime_id) == Err::<
            ActionView,
            PackErrorView,
        >(PackErrorView::NotInstalled(runtime_id)),
        forall|at: int|
            0 <= at < checks.len() && (#[trigger] checks[at]).runtime.manifest.runtime_id
                == runtime_id && (forall|i: int|
                0 <= i < at ==> (#[trigger] checks[i]).runtime.manifest.runtime_id != runtime_id)
                ==> update_result(checks, runtime_id) == state_action(checks[at].state),
    decreases checks.len(),
{
    if checks.len() > 0 {
        let rest = checks.skip(1);
        law_updates_go_by_their_check(rest, runtime_id);
        if checks[0].runtime.manifest.runtime_id != runtime_id {
            assert(update_result(checks, runtime_id) == update_result(rest, runtime_id));
            if forall|i: int|
                0 <= i < checks.len() ==> (#[trigger] checks[i]).runtime.manifest.runtime_id
                    != runtime_id {
                assert forall|i: int| 0 <= i < rest.len() implies (
                #[trigger] rest[i]).runtime.manifest.runtime_id != runtime_id by {
                    assert(rest[i] == checks[i + 1]);
                }
            }
            assert forall|at: int|
                0 <= at < checks.len() && (#[trigger] checks[at]).runtime.manifest.runtime_id
                    == runtime_id && (forall|i: int|
                    0 <= i < at ==> (#[trigger] checks[i]).runtime.manifest.runtime_id
                        != runtime_id) implies update_result(checks, runtime_id) == state_action(
                checks[at].state,
            ) by {
                assert(rest[at - 1] == checks[at]);
                assert forall|i: int| 0 <= i < at - 1 implies (
                #[trigger] rest[i]).runtime.manifest.runtime_id != runtime_id by {
                    assert(rest[i] == checks[i + 1]);
                }
            }
        }
    }
}

} // verus!
